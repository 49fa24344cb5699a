//! The decompiler entry point.
//!
//! `decompile` is a total, pure function from an untrusted byte buffer and
//! three rendering flags to text. Malformed input never fails: an unknown
//! opcode or a buffer that ends mid-instruction shows up as a visible
//! marker in the output, and decoding of the remaining bytes continues
//! where that is unambiguous. `decompile_with_diagnostics` additionally
//! reports each malformed spot as a formatted log line for the host sink;
//! with no sink configured it reports nothing.

use vstd::prelude::*;

use crate::instr::InstrModel;
use crate::instr::decode;
use crate::instr::spec_decode;
use crate::logger::LogLevel;
use crate::logger::Logger;
use crate::logger::LoggerContext;
use crate::logger::spec_log_line;
use crate::render::dec_u32;
use crate::render::render;
use crate::render::spec_dec;
use crate::render::spec_render;

verus! {

/// The source label under which the decompiler logs its diagnostics.
pub open spec fn spec_diag_label() -> Seq<char> {
    "DATEX"@
}

/// What `decompile` returns: the rendering of the decoded instruction
/// stream, starting with no slot names, depth zero, and a fresh line.
pub open spec fn spec_decompile(
    bytes: Seq<u8>,
    formatted: bool,
    colorized: bool,
    resolve_slots: bool,
) -> Seq<char> {
    spec_render(
        spec_decode(bytes),
        formatted,
        colorized,
        resolve_slots,
        Map::<u8, Seq<u8>>::empty(),
        0,
        true,
    )
}

/// Renders a DXB buffer as text.
///
/// The result is a function of the arguments alone: no call depends on any
/// state or on any earlier call. An empty buffer renders as the empty
/// string. Malformed input yields text with visible markers, never a
/// failure.
pub fn decompile(dxb: &[u8], formatted: bool, colorized: bool, resolve_slots: bool) -> (text:
    String)
    ensures
        text@ == spec_decompile(dxb@, formatted, colorized, resolve_slots),
        dxb@.len() == 0 ==> text@ == Seq::<char>::empty(),
{
    let instrs = decode(dxb);
    render(&instrs, formatted, colorized, resolve_slots)
}

/// The log lines malformed input produces, in stream order: one for each
/// unknown opcode and one for a buffer that ends mid-instruction.
pub open spec fn spec_diagnostics(ms: Seq<InstrModel>) -> Seq<Seq<char>>
    decreases ms.len(),
{
    if ms.len() == 0 {
        Seq::empty()
    } else {
        let head: Seq<Seq<char>> = match ms[0] {
            InstrModel::BadOpcode(op) => seq![
                spec_log_line(
                    spec_diag_label(),
                    LogLevel::Error,
                    "unrecognized opcode "@ + spec_dec(op as nat),
                ),
            ],
            InstrModel::Truncated => seq![
                spec_log_line(spec_diag_label(), LogLevel::Error, "unexpected end of input"@),
            ],
            _ => Seq::empty(),
        };
        head + spec_diagnostics(ms.skip(1))
    }
}

/// The views of a sequence of produced lines.
pub open spec fn lines_view(lines: Seq<String>) -> Seq<Seq<char>> {
    lines.map_values(|line: String| line@)
}

/// Renders a DXB buffer as text and reports malformed input through the
/// logger: one formatted line per marker when a sink is configured, and
/// nothing at all when none is.
pub fn decompile_with_diagnostics(
    context: &LoggerContext,
    dxb: &[u8],
    formatted: bool,
    colorized: bool,
    resolve_slots: bool,
) -> (result: (String, Vec<String>))
    ensures
        result.0@ == spec_decompile(dxb@, formatted, colorized, resolve_slots),
        context.sink_present ==> lines_view(result.1@) == spec_diagnostics(spec_decode(dxb@)),
        !context.sink_present ==> result.1@.len() == 0,
{
    let instrs = decode(dxb);
    let text = render(&instrs, formatted, colorized, resolve_slots);
    let logger = Logger::new(context, "DATEX");
    let ghost ms = spec_decode(dxb@);
    let mut lines: Vec<String> = Vec::new();
    let n = instrs.len();
    let mut i: usize = 0;
    proof {
        assert(ms.skip(0) =~= ms);
        assert(lines_view(lines@) + spec_diagnostics(ms) =~= spec_diagnostics(ms));
    }
    while i < n
        invariant
            i <= n,
            n == instrs@.len(),
            ms == spec_decode(dxb@),
            ms == crate::instr::seq_view(instrs@),
            logger.label@ == spec_diag_label(),
            logger.sink_present == context.sink_present,
            context.sink_present ==> spec_diagnostics(ms) == lines_view(lines@)
                + spec_diagnostics(ms.skip(i as int)),
            !context.sink_present ==> lines@.len() == 0,
        decreases n - i,
    {
        let ghost rest = ms.skip(i as int);
        let ghost lines0 = lines@;
        proof {
            assert(crate::instr::seq_view(instrs@)[i as int] == instrs@[i as int]@);
            assert(rest[0] == ms[i as int]);
            assert(rest.skip(1) =~= ms.skip(i + 1));
        }
        match &instrs[i] {
            crate::instr::Instr::BadOpcode(op) => {
                let mut message = String::from_str("unrecognized opcode ");
                let numeral = dec_u32(*op as u32);
                message.append(numeral.as_str());
                if let Some(line) = logger.error(message.as_str()) {
                    lines.push(line);
                    proof {
                        assert(lines_view(lines@) =~= lines_view(lines0).push(lines@.last()@));
                        assert(lines_view(lines0) + spec_diagnostics(rest) =~= lines_view(lines@)
                            + spec_diagnostics(ms.skip(i + 1)));
                    }
                }
            },
            crate::instr::Instr::Truncated => {
                if let Some(line) = logger.error("unexpected end of input") {
                    lines.push(line);
                    proof {
                        assert(lines_view(lines@) =~= lines_view(lines0).push(lines@.last()@));
                        assert(lines_view(lines0) + spec_diagnostics(rest) =~= lines_view(lines@)
                            + spec_diagnostics(ms.skip(i + 1)));
                    }
                }
            },
            _ => {
                proof {
                    assert(spec_diagnostics(rest) == spec_diagnostics(ms.skip(i + 1)));
                }
            },
        }
        i += 1;
    }
    proof {
        assert(ms.skip(n as int) =~= Seq::<InstrModel>::empty());
        if context.sink_present {
            assert(lines_view(lines@) =~= lines_view(lines@) + spec_diagnostics(
                ms.skip(n as int),
            ));
        }
    }
    (text, lines)
}

} // verus!
