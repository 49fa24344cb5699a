//! Laws of the rendering flags.
//!
//! The three flags change only how tokens are laid out, never which tokens
//! appear or in what order. This module states that exactly: formatting
//! moves only whitespace, color markers strip away to the uncolorized
//! text, and a slot reference without recoverable metadata falls back to
//! its numeric index instead of failing.

use vstd::prelude::*;

use crate::decompiler::spec_decompile;
use crate::instr::InstrModel;
use crate::instr::spec_decode;
use crate::render::COLOR_MARK;
use crate::render::spec_category;
use crate::render::spec_clean_char;
use crate::render::spec_clean_text;
use crate::render::spec_colored_token;
use crate::render::spec_dec;
use crate::render::spec_depth_after;
use crate::render::spec_digit_char;
use crate::render::spec_eff_depth;
use crate::render::spec_env_after;
use crate::render::spec_indent;
use crate::render::spec_is_break;
use crate::render::spec_render;
use crate::render::spec_token_text;

verus! {

/// Layout whitespace: what the `formatted` flag is allowed to move.
pub open spec fn spec_is_ws(c: char) -> bool {
    c == ' ' || c == '\n'
}

/// The text with all spaces and line breaks removed: the token characters
/// alone, in order.
pub open spec fn strip_ws(s: Seq<char>) -> Seq<char>
    decreases s.len(),
{
    if s.len() == 0 {
        s
    } else if spec_is_ws(s[0]) {
        strip_ws(s.skip(1))
    } else {
        seq![s[0]] + strip_ws(s.skip(1))
    }
}

proof fn lemma_strip_ws_add(a: Seq<char>, b: Seq<char>)
    ensures
        strip_ws(a + b) == strip_ws(a) + strip_ws(b),
    decreases a.len(),
{
    if a.len() == 0 {
        assert(a + b =~= b);
        assert(strip_ws(a) + strip_ws(b) =~= strip_ws(b));
    } else {
        assert((a + b)[0] == a[0]);
        assert((a + b).skip(1) =~= a.skip(1) + b);
        lemma_strip_ws_add(a.skip(1), b);
        if !spec_is_ws(a[0]) {
            assert(seq![a[0]] + (strip_ws(a.skip(1)) + strip_ws(b)) =~= (seq![a[0]] + strip_ws(
                a.skip(1),
            )) + strip_ws(b));
        }
    }
}

proof fn lemma_strip_ws_single(c: char)
    ensures
        strip_ws(seq![c]) == if spec_is_ws(c) {
            Seq::<char>::empty()
        } else {
            seq![c]
        },
{
    assert(seq![c].skip(1) =~= Seq::<char>::empty());
    assert(strip_ws(Seq::<char>::empty()) == Seq::<char>::empty());
    if !spec_is_ws(c) {
        assert(seq![c] + Seq::<char>::empty() =~= seq![c]);
    }
}

proof fn lemma_strip_ws_indent(d: nat)
    ensures
        strip_ws(spec_indent(d)) == Seq::<char>::empty(),
    decreases d,
{
    if d > 0 {
        reveal_strlit("  ");
        lemma_strip_ws_indent((d - 1) as nat);
        lemma_strip_ws_add("  "@, spec_indent((d - 1) as nat));
        assert("  "@.skip(1) =~= seq![' ']);
        lemma_strip_ws_single(' ');
        assert(strip_ws("  "@) == Seq::<char>::empty());
        assert(Seq::<char>::empty() + Seq::<char>::empty() =~= Seq::<char>::empty());
    }
}

proof fn lemma_render_ws(
    ms: Seq<InstrModel>,
    colorized: bool,
    resolve: bool,
    env: Map<u8, Seq<u8>>,
    d1: nat,
    ls1: bool,
    d2: nat,
    ls2: bool,
)
    ensures
        strip_ws(spec_render(ms, true, colorized, resolve, env, d1, ls1)) == strip_ws(
            spec_render(ms, false, colorized, resolve, env, d2, ls2),
        ),
    decreases ms.len(),
{
    if ms.len() > 0 {
        let m = ms[0];
        let colored = spec_colored_token(m, colorized, resolve, env);
        let env1 = spec_env_after(m, env);
        let brk = spec_is_break(m);
        let pre1 = if ls1 {
            spec_indent(spec_eff_depth(m, d1))
        } else {
            Seq::<char>::empty()
        };
        let sep1: Seq<char> = if brk {
            seq!['\n']
        } else {
            seq![' ']
        };
        let r1 = spec_render(ms.skip(1), true, colorized, resolve, env1, spec_depth_after(m, d1), brk);
        let sep2: Seq<char> = seq![' '];
        let r2 = spec_render(
            ms.skip(1),
            false,
            colorized,
            resolve,
            env1,
            spec_depth_after(m, d2),
            brk,
        );
        assert(spec_render(ms, true, colorized, resolve, env, d1, ls1) == ((pre1 + colored) + sep1)
            + r1);
        assert(spec_render(ms, false, colorized, resolve, env, d2, ls2) == ((Seq::<char>::empty()
            + colored) + sep2) + r2);
        lemma_strip_ws_add((pre1 + colored) + sep1, r1);
        lemma_strip_ws_add(pre1 + colored, sep1);
        lemma_strip_ws_add(pre1, colored);
        if ls1 {
            lemma_strip_ws_indent(spec_eff_depth(m, d1));
        }
        lemma_strip_ws_single('\n');
        lemma_strip_ws_single(' ');
        lemma_strip_ws_add((Seq::<char>::empty() + colored) + sep2, r2);
        lemma_strip_ws_add(Seq::<char>::empty() + colored, sep2);
        lemma_strip_ws_add(Seq::<char>::empty(), colored);
        lemma_render_ws(
            ms.skip(1),
            colorized,
            resolve,
            env1,
            spec_depth_after(m, d1),
            brk,
            spec_depth_after(m, d2),
            brk,
        );
        assert(((strip_ws(pre1) + strip_ws(colored)) + strip_ws(sep1)) + strip_ws(r1) =~= strip_ws(
            colored,
        ) + strip_ws(r1));
        assert(((strip_ws(Seq::<char>::empty()) + strip_ws(colored)) + strip_ws(sep2)) + strip_ws(
            r2,
        ) =~= strip_ws(colored) + strip_ws(r2));
    }
}

/// Formatting changes only whitespace: with the other flags equal, the
/// pretty-printed and the single-line output hold exactly the same token
/// characters in the same order, and differ only in spaces, line breaks
/// and indentation.
pub proof fn lemma_formatting_changes_only_whitespace(
    bytes: Seq<u8>,
    colorized: bool,
    resolve_slots: bool,
)
    ensures
        strip_ws(spec_decompile(bytes, true, colorized, resolve_slots)) == strip_ws(
            spec_decompile(bytes, false, colorized, resolve_slots),
        ),
{
    lemma_render_ws(
        spec_decode(bytes),
        colorized,
        resolve_slots,
        Map::<u8, Seq<u8>>::empty(),
        0,
        true,
        0,
        true,
    );
}

/// Text free of the color escape character. All rendered token text is:
/// bytes outside printable ASCII render as `'?'`.
pub open spec fn esc_free(s: Seq<char>) -> bool {
    forall|k: int| 0 <= k < s.len() ==> (#[trigger] s[k]) != COLOR_MARK
}

/// The text with every color marker removed: each escape character
/// vanishes together with the letter after it.
pub open spec fn strip_color(s: Seq<char>) -> Seq<char>
    decreases s.len(),
{
    if s.len() == 0 {
        s
    } else if s[0] == COLOR_MARK {
        if s.len() == 1 {
            Seq::empty()
        } else {
            strip_color(s.skip(2))
        }
    } else {
        seq![s[0]] + strip_color(s.skip(1))
    }
}

proof fn lemma_strip_color_prefix(a: Seq<char>, b: Seq<char>)
    requires
        esc_free(a),
    ensures
        strip_color(a + b) == a + strip_color(b),
    decreases a.len(),
{
    if a.len() == 0 {
        assert(a + b =~= b);
        assert(a + strip_color(b) =~= strip_color(b));
    } else {
        assert((a + b)[0] == a[0]);
        assert((a + b).skip(1) =~= a.skip(1) + b);
        assert(esc_free(a.skip(1)));
        lemma_strip_color_prefix(a.skip(1), b);
        assert(seq![a[0]] + (a.skip(1) + strip_color(b)) =~= a + strip_color(b));
    }
}

proof fn lemma_strip_color_marker(cat: char, b: Seq<char>)
    ensures
        strip_color(seq![COLOR_MARK, cat] + b) == strip_color(b),
{
    let s = seq![COLOR_MARK, cat] + b;
    assert(s[0] == COLOR_MARK);
    assert(s.len() == 2 + b.len());
    assert(s.skip(2) =~= b);
}

proof fn lemma_esc_free_add(a: Seq<char>, b: Seq<char>)
    requires
        esc_free(a),
        esc_free(b),
    ensures
        esc_free(a + b),
{
    assert forall|k: int| 0 <= k < (a + b).len() implies (#[trigger] (a + b)[k]) != COLOR_MARK by {
        if k < a.len() {
            assert((a + b)[k] == a[k]);
        } else {
            assert((a + b)[k] == b[k - a.len()]);
        }
    }
}

proof fn lemma_esc_free_dec(n: nat)
    ensures
        esc_free(spec_dec(n)),
    decreases n,
{
    assert(spec_digit_char((n % 10) as int) != COLOR_MARK);
    if n < 10 {
        assert(spec_digit_char(n as int) != COLOR_MARK);
    } else {
        lemma_esc_free_dec(n / 10);
        assert forall|k: int| 0 <= k < spec_dec(n).len() implies (#[trigger] spec_dec(n)[k])
            != COLOR_MARK by {
            if k < spec_dec(n / 10).len() {
                assert(spec_dec(n)[k] == spec_dec(n / 10)[k]);
            }
        }
    }
}

proof fn lemma_esc_free_clean(bs: Seq<u8>)
    ensures
        esc_free(spec_clean_text(bs)),
{
    assert forall|k: int| 0 <= k < spec_clean_text(bs).len() implies (#[trigger] spec_clean_text(
        bs,
    )[k]) != COLOR_MARK by {
        assert(spec_clean_text(bs)[k] == spec_clean_char(bs[k]));
    }
}

proof fn lemma_esc_free_indent(d: nat)
    ensures
        esc_free(spec_indent(d)),
    decreases d,
{
    if d > 0 {
        reveal_strlit("  ");
        assert(esc_free("  "@));
        lemma_esc_free_indent((d - 1) as nat);
        lemma_esc_free_add("  "@, spec_indent((d - 1) as nat));
    }
}

proof fn lemma_token_esc_free(m: InstrModel, resolve: bool, env: Map<u8, Seq<u8>>)
    ensures
        esc_free(spec_token_text(m, resolve, env)),
{
    match m {
        InstrModel::True => {
            reveal_strlit("true");
            assert(esc_free("true"@));
        },
        InstrModel::False => {
            reveal_strlit("false");
            assert(esc_free("false"@));
        },
        InstrModel::Null => {
            reveal_strlit("null");
            assert(esc_free("null"@));
        },
        InstrModel::Int8(v) => {
            lemma_esc_free_dec(v as nat);
        },
        InstrModel::Int32(b0, b1, b2, b3) => {
            lemma_esc_free_dec(crate::instr::le32_val(b0, b1, b2, b3) as nat);
        },
        InstrModel::Text(bs) => {
            reveal_strlit("\"");
            assert(esc_free("\""@));
            lemma_esc_free_clean(bs);
            lemma_esc_free_add("\""@, spec_clean_text(bs));
            lemma_esc_free_add("\""@ + spec_clean_text(bs), "\""@);
        },
        InstrModel::Slot(idx) => {
            reveal_strlit("#");
            assert(esc_free("#"@));
            if resolve && env.contains_key(idx) {
                lemma_esc_free_clean(env[idx]);
            } else {
                lemma_esc_free_dec(idx as nat);
                lemma_esc_free_add("#"@, spec_dec(idx as nat));
            }
        },
        InstrModel::Label(idx, name) => {
            reveal_strlit("#");
            reveal_strlit("=");
            assert(esc_free("#"@));
            assert(esc_free("="@));
            lemma_esc_free_dec(idx as nat);
            lemma_esc_free_clean(name);
            lemma_esc_free_add("#"@, spec_dec(idx as nat));
            lemma_esc_free_add("#"@ + spec_dec(idx as nat), "="@);
            lemma_esc_free_add(("#"@ + spec_dec(idx as nat)) + "="@, spec_clean_text(name));
        },
        InstrModel::BlockStart => {
            reveal_strlit("(");
            assert(esc_free("("@));
        },
        InstrModel::BlockEnd => {
            reveal_strlit(")");
            assert(esc_free(")"@));
        },
        InstrModel::EndStatement => {
            reveal_strlit(";");
            assert(esc_free(";"@));
        },
        InstrModel::BadOpcode(op) => {
            reveal_strlit("<bad ");
            reveal_strlit(">");
            assert(esc_free("<bad "@));
            assert(esc_free(">"@));
            lemma_esc_free_dec(op as nat);
            lemma_esc_free_add("<bad "@, spec_dec(op as nat));
            lemma_esc_free_add("<bad "@ + spec_dec(op as nat), ">"@);
        },
        InstrModel::Truncated => {
            reveal_strlit("<truncated>");
            assert(esc_free("<truncated>"@));
        },
    }
}

#[verifier::rlimit(100)]
proof fn lemma_render_color(
    ms: Seq<InstrModel>,
    formatted: bool,
    resolve: bool,
    env: Map<u8, Seq<u8>>,
    d: nat,
    ls: bool,
)
    ensures
        strip_color(spec_render(ms, formatted, true, resolve, env, d, ls)) == spec_render(
            ms,
            formatted,
            false,
            resolve,
            env,
            d,
            ls,
        ),
    decreases ms.len(),
{
    if ms.len() > 0 {
        let m = ms[0];
        let t = spec_token_text(m, resolve, env);
        let cat = spec_category(m);
        let env1 = spec_env_after(m, env);
        let d1 = spec_depth_after(m, d);
        let brk = spec_is_break(m);
        let pre = if formatted && ls {
            spec_indent(spec_eff_depth(m, d))
        } else {
            Seq::<char>::empty()
        };
        let sep: Seq<char> = if formatted && brk {
            seq!['\n']
        } else {
            seq![' ']
        };
        let rc = spec_render(ms.skip(1), formatted, true, resolve, env1, d1, brk);
        let rp = spec_render(ms.skip(1), formatted, false, resolve, env1, d1, brk);
        let marked = (seq![COLOR_MARK, cat] + t) + seq![COLOR_MARK, 'x'];
        assert(spec_render(ms, formatted, true, resolve, env, d, ls) == ((pre + marked) + sep)
            + rc);
        assert(spec_render(ms, formatted, false, resolve, env, d, ls) == ((pre + t) + sep) + rp);
        lemma_token_esc_free(m, resolve, env);
        if formatted && ls {
            lemma_esc_free_indent(spec_eff_depth(m, d));
        }
        assert(esc_free(pre));
        assert(esc_free(sep));
        lemma_render_color(ms.skip(1), formatted, resolve, env1, d1, brk);
        let x3 = sep + rc;
        let x2 = seq![COLOR_MARK, 'x'] + x3;
        let x1 = t + x2;
        let x0 = seq![COLOR_MARK, cat] + x1;
        assert(marked + x3 =~= x0);
        assert(((pre + marked) + sep) + rc =~= pre + (marked + x3));
        lemma_strip_color_prefix(pre, x0);
        lemma_strip_color_marker(cat, x1);
        lemma_strip_color_prefix(t, x2);
        lemma_strip_color_marker('x', x3);
        lemma_strip_color_prefix(sep, rc);
        assert(strip_color(spec_render(ms, formatted, true, resolve, env, d, ls)) == pre + (t + (
        sep + rp)));
        assert(pre + (t + (sep + rp)) =~= ((pre + t) + sep) + rp);
    }
}

/// Color markers strip away exactly: removing every escape character and
/// the letter after it from colorized output recovers, byte for byte, the
/// output of the same call without colorizing.
pub proof fn lemma_color_markers_strip_away(bytes: Seq<u8>, formatted: bool, resolve_slots: bool)
    ensures
        strip_color(spec_decompile(bytes, formatted, true, resolve_slots)) == spec_decompile(
            bytes,
            formatted,
            false,
            resolve_slots,
        ),
{
    lemma_render_color(
        spec_decode(bytes),
        formatted,
        resolve_slots,
        Map::<u8, Seq<u8>>::empty(),
        0,
        true,
    );
}

/// A slot reference whose index has no recoverable name renders as the
/// numeric index, exactly as if resolution had not been requested: missing
/// metadata is a fallback, never an error.
pub proof fn lemma_slot_fallback(idx: u8, resolve_slots: bool, env: Map<u8, Seq<u8>>)
    requires
        !env.contains_key(idx),
    ensures
        spec_token_text(InstrModel::Slot(idx), resolve_slots, env) == spec_token_text(
            InstrModel::Slot(idx),
            false,
            env,
        ),
{
}

} // verus!
