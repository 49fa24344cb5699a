use dxb_adapter::LogLevel;
use dxb_adapter::Logger;
use dxb_adapter::LoggerContext;
use dxb_adapter::decompile_with_diagnostics;

#[test]
fn log_formats_label_level_and_message() {
    let context = LoggerContext { sink_present: true };
    let logger = Logger::new(&context, "DATEX");
    assert_eq!(logger.log(LogLevel::Info, "ready"), Some("[DATEX] INFO: ready".to_string()));
    assert_eq!(logger.success("initialized"), Some("[DATEX] SUCCESS: initialized".to_string()));
    assert_eq!(logger.error("broken"), Some("[DATEX] ERROR: broken".to_string()));
}

#[test]
fn log_without_sink_is_a_no_op() {
    let context = LoggerContext { sink_present: false };
    let logger = Logger::new(&context, "DATEX");
    assert_eq!(logger.log(LogLevel::Error, "lost"), None);
    assert_eq!(logger.success("lost"), None);
    assert_eq!(logger.error("lost"), None);
}

#[test]
fn diagnostics_report_malformed_input() {
    let context = LoggerContext { sink_present: true };
    let (text, diagnostics) = decompile_with_diagnostics(&context, &[0xbb, 0x11], false, false, false);
    assert_eq!(text, "<bad 187> <truncated> ");
    assert_eq!(
        diagnostics,
        vec![
            "[DATEX] ERROR: unrecognized opcode 187".to_string(),
            "[DATEX] ERROR: unexpected end of input".to_string(),
        ],
    );
}

#[test]
fn diagnostics_stay_silent_without_sink() {
    let context = LoggerContext { sink_present: false };
    let (text, diagnostics) = decompile_with_diagnostics(&context, &[0xbb, 0x11], false, false, false);
    assert_eq!(text, "<bad 187> <truncated> ");
    assert!(diagnostics.is_empty());
}

#[test]
fn well_formed_input_reports_nothing() {
    let context = LoggerContext { sink_present: true };
    let (text, diagnostics) = decompile_with_diagnostics(&context, &[0x01], false, false, false);
    assert_eq!(text, "true ");
    assert!(diagnostics.is_empty());
}
