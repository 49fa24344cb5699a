//! The rendering layer of the decompiler.
//!
//! Decoded instructions become text under three independent flags that
//! change only the layout, never which tokens appear or their order:
//!
//! - `formatted` inserts line breaks after block delimiters and statement
//!   ends, and indents each new line two spaces per open block; unformatted
//!   output joins tokens with single spaces.
//! - `colorized` wraps every token in a pair of markers: an escape
//!   character (`'\u{1b}'`) followed by a category letter before the token,
//!   and the escape character followed by `'x'` after it. Token text never
//!   contains the escape character — bytes outside printable ASCII render
//!   as `'?'` — so stripping the markers is unambiguous.
//! - `resolve_slots` renders a slot reference under the name that an
//!   earlier label instruction gave its index. An index without a name
//!   falls back to the numeric form; that is expected, not an error.

use vstd::prelude::*;

use crate::instr::Instr;
use crate::instr::InstrModel;
use crate::instr::le32_val;
use crate::instr::seq_view;

verus! {

/// The escape character that introduces a color marker.
pub const COLOR_MARK: char = '\u{1b}';

/// The decimal digit character for `d`.
pub open spec fn spec_digit_char(d: int) -> char {
    ((48 + d) as u8) as char
}

/// The decimal numeral for `n`, most significant digit first.
pub open spec fn spec_dec(n: nat) -> Seq<char>
    decreases n,
{
    if n < 10 {
        seq![spec_digit_char(n as int)]
    } else {
        spec_dec(n / 10).push(spec_digit_char((n % 10) as int))
    }
}

/// How an untrusted byte appears inside rendered text: itself if printable
/// ASCII, `'?'` otherwise. The escape character is not printable, so
/// rendered token text never contains it.
pub open spec fn spec_clean_char(b: u8) -> char {
    if 0x20 <= b && b <= 0x7e {
        b as char
    } else {
        '?'
    }
}

/// A byte sequence rendered character by character.
pub open spec fn spec_clean_text(bs: Seq<u8>) -> Seq<char> {
    bs.map_values(|b: u8| spec_clean_char(b))
}

/// The text of one token, before any color markers.
///
/// A slot reference renders under its resolved name only when resolution
/// is requested and a name is known; otherwise it renders as `#` and the
/// numeric index.
pub open spec fn spec_token_text(m: InstrModel, resolve: bool, env: Map<u8, Seq<u8>>) -> Seq<
    char,
> {
    match m {
        InstrModel::True => "true"@,
        InstrModel::False => "false"@,
        InstrModel::Null => "null"@,
        InstrModel::Int8(v) => spec_dec(v as nat),
        InstrModel::Int32(b0, b1, b2, b3) => spec_dec(le32_val(b0, b1, b2, b3) as nat),
        InstrModel::Text(bs) => "\""@ + spec_clean_text(bs) + "\""@,
        InstrModel::Slot(idx) => if resolve && env.contains_key(idx) {
            spec_clean_text(env[idx])
        } else {
            "#"@ + spec_dec(idx as nat)
        },
        InstrModel::Label(idx, name) => "#"@ + spec_dec(idx as nat) + "="@ + spec_clean_text(name),
        InstrModel::BlockStart => "("@,
        InstrModel::BlockEnd => ")"@,
        InstrModel::EndStatement => ";"@,
        InstrModel::BadOpcode(op) => "<bad "@ + spec_dec(op as nat) + ">"@,
        InstrModel::Truncated => "<truncated>"@,
    }
}

/// The category letter a color marker carries for each kind of token.
pub open spec fn spec_category(m: InstrModel) -> char {
    match m {
        InstrModel::True => 'l',
        InstrModel::False => 'l',
        InstrModel::Null => 'l',
        InstrModel::Int8(_) => 'l',
        InstrModel::Int32(_, _, _, _) => 'l',
        InstrModel::Text(_) => 'l',
        InstrModel::Slot(_) => 's',
        InstrModel::Label(_, _) => 'i',
        InstrModel::BlockStart => 'o',
        InstrModel::BlockEnd => 'o',
        InstrModel::EndStatement => 'o',
        InstrModel::BadOpcode(_) => 'e',
        InstrModel::Truncated => 'e',
    }
}

/// One token with its color markers, when colorizing is on.
pub open spec fn spec_colored_token(
    m: InstrModel,
    colorized: bool,
    resolve: bool,
    env: Map<u8, Seq<u8>>,
) -> Seq<char> {
    if colorized {
        seq![COLOR_MARK, spec_category(m)] + spec_token_text(m, resolve, env) + seq![
            COLOR_MARK,
            'x',
        ]
    } else {
        spec_token_text(m, resolve, env)
    }
}

/// The slot names in scope after an instruction: a label instruction binds
/// its index, and a later label for the same index replaces the earlier.
pub open spec fn spec_env_after(m: InstrModel, env: Map<u8, Seq<u8>>) -> Map<u8, Seq<u8>> {
    match m {
        InstrModel::Label(idx, name) => env.insert(idx, name),
        _ => env,
    }
}

/// The nesting depth after an instruction. A stray block end at depth zero
/// keeps the depth at zero.
pub open spec fn spec_depth_after(m: InstrModel, depth: nat) -> nat {
    match m {
        InstrModel::BlockStart => depth + 1,
        InstrModel::BlockEnd => if depth > 0 {
            (depth - 1) as nat
        } else {
            0
        },
        _ => depth,
    }
}

/// Whether formatted output breaks the line after this token.
pub open spec fn spec_is_break(m: InstrModel) -> bool {
    m is BlockStart || m is BlockEnd || m is EndStatement
}

/// The depth at which a token is indented: the block end that closes the
/// current block sits one level shallower than its contents.
pub open spec fn spec_eff_depth(m: InstrModel, depth: nat) -> nat {
    if m is BlockEnd {
        if depth > 0 {
            (depth - 1) as nat
        } else {
            0
        }
    } else {
        depth
    }
}

/// Two spaces of indentation per open block.
pub open spec fn spec_indent(depth: nat) -> Seq<char>
    decreases depth,
{
    if depth == 0 {
        Seq::empty()
    } else {
        "  "@ + spec_indent((depth - 1) as nat)
    }
}

/// What a sequence of instructions renders to.
///
/// Each token is followed by one separator: a space, or, when formatting
/// is on and the token is a block delimiter or statement end, a line
/// break. `line_start` records whether the previous separator broke the
/// line; only then is indentation emitted, at the current depth, one level
/// shallower for the block end that closes the current block.
pub open spec fn spec_render(
    ms: Seq<InstrModel>,
    formatted: bool,
    colorized: bool,
    resolve: bool,
    env: Map<u8, Seq<u8>>,
    depth: nat,
    line_start: bool,
) -> Seq<char>
    decreases ms.len(),
{
    if ms.len() == 0 {
        Seq::empty()
    } else {
        let m = ms[0];
        let pre = if formatted && line_start {
            spec_indent(spec_eff_depth(m, depth))
        } else {
            Seq::<char>::empty()
        };
        let sep = if formatted && spec_is_break(m) {
            seq!['\n']
        } else {
            seq![' ']
        };
        pre + spec_colored_token(m, colorized, resolve, env) + sep + spec_render(
            ms.skip(1),
            formatted,
            colorized,
            resolve,
            spec_env_after(m, env),
            spec_depth_after(m, depth),
            spec_is_break(m),
        )
    }
}

/// Relies on `String::push`: appends exactly the given character.
#[verifier::external_body]
fn push_char(s: &mut String, c: char)
    ensures
        final(s)@ == old(s)@.push(c),
{
    s.push(c);
}

/// The decimal digit character for `d`.
fn digit_char(d: u32) -> (c: char)
    requires
        d < 10,
    ensures
        c == spec_digit_char(d as int),
{
    (48 + d as u8) as char
}

/// The decimal numeral for `n`.
pub fn dec_u32(n: u32) -> (s: String)
    ensures
        s@ == spec_dec(n as nat),
    decreases n,
{
    if n < 10 {
        let mut s = String::new();
        push_char(&mut s, digit_char(n));
        assert(s@ =~= seq![spec_digit_char(n as int)]);
        s
    } else {
        let mut s = dec_u32(n / 10);
        push_char(&mut s, digit_char(n % 10));
        s
    }
}

/// Appends the rendering of untrusted bytes: printable ASCII stays,
/// anything else becomes `'?'`.
fn push_clean_text(s: &mut String, bs: &[u8])
    ensures
        final(s)@ == old(s)@ + spec_clean_text(bs@),
{
    let ghost s0 = s@;
    let n = bs.len();
    let mut j: usize = 0;
    assert(s0 + spec_clean_text(bs@.take(0)) =~= s0);
    while j < n
        invariant
            j <= n,
            n == bs@.len(),
            s@ == s0 + spec_clean_text(bs@.take(j as int)),
        decreases n - j,
    {
        let b = bs[j];
        let c = if 0x20 <= b && b <= 0x7e {
            b as char
        } else {
            '?'
        };
        push_char(s, c);
        proof {
            assert(spec_clean_text(bs@.take(j + 1)) =~= spec_clean_text(bs@.take(j as int)).push(
                spec_clean_char(bs@[j as int]),
            ));
            assert(s0 + spec_clean_text(bs@.take(j + 1)) =~= (s0 + spec_clean_text(
                bs@.take(j as int),
            )).push(spec_clean_char(bs@[j as int])));
        }
        j += 1;
    }
    assert(bs@.take(n as int) =~= bs@);
}

/// The slot names bound by the label instructions seen so far.
///
/// Bindings are kept in the order they appeared; a lookup takes the most
/// recent binding for an index, so a later label replaces an earlier one,
/// exactly as `spec_env_after` folds them into a map.
pub struct SlotTable {
    entries: Vec<(u8, Vec<u8>)>,
}

/// The map an ordered list of bindings denotes: later entries win.
pub open spec fn assoc_view(entries: Seq<(u8, Vec<u8>)>) -> Map<u8, Seq<u8>>
    decreases entries.len(),
{
    if entries.len() == 0 {
        Map::empty()
    } else {
        assoc_view(entries.drop_last()).insert(entries.last().0, entries.last().1@)
    }
}

proof fn lemma_assoc_found(entries: Seq<(u8, Vec<u8>)>, k: int, idx: u8)
    requires
        0 <= k < entries.len(),
        entries[k].0 == idx,
        forall|j: int| k < j < entries.len() ==> (#[trigger] entries[j]).0 != idx,
    ensures
        assoc_view(entries).contains_key(idx),
        assoc_view(entries)[idx] == entries[k].1@,
    decreases entries.len(),
{
    if k == entries.len() - 1 {
    } else {
        assert(entries.drop_last()[k] == entries[k]);
        lemma_assoc_found(entries.drop_last(), k, idx);
    }
}

proof fn lemma_assoc_absent(entries: Seq<(u8, Vec<u8>)>, idx: u8)
    requires
        forall|j: int| 0 <= j < entries.len() ==> (#[trigger] entries[j]).0 != idx,
    ensures
        !assoc_view(entries).contains_key(idx),
    decreases entries.len(),
{
    if entries.len() > 0 {
        lemma_assoc_absent(entries.drop_last(), idx);
    }
}

impl SlotTable {
    pub closed spec fn view(&self) -> Map<u8, Seq<u8>> {
        assoc_view(self.entries@)
    }

    pub fn new() -> (table: SlotTable)
        ensures
            table@ == Map::<u8, Seq<u8>>::empty(),
    {
        SlotTable { entries: Vec::new() }
    }

    /// Binds `idx` to `name`, replacing any earlier binding.
    pub fn bind(&mut self, idx: u8, name: Vec<u8>)
        ensures
            final(self)@ == old(self)@.insert(idx, name@),
    {
        let ghost before = self.entries@;
        self.entries.push((idx, name));
        proof {
            assert(self.entries@.drop_last() =~= before);
        }
    }

    /// The name bound to `idx`, if any.
    pub fn get(&self, idx: u8) -> (name: Option<&Vec<u8>>)
        ensures
            match name {
                Some(v) => self@.contains_key(idx) && v@ == self@[idx],
                None => !self@.contains_key(idx),
            },
    {
        let n = self.entries.len();
        let mut k = n;
        while k > 0
            invariant
                k <= n,
                n == self.entries@.len(),
                forall|j: int| k <= j < n ==> (#[trigger] self.entries@[j]).0 != idx,
            decreases k,
        {
            k = k - 1;
            if self.entries[k].0 == idx {
                proof {
                    lemma_assoc_found(self.entries@, k as int, idx);
                }
                return Some(&self.entries[k].1);
            }
        }
        proof {
            lemma_assoc_absent(self.entries@, idx);
        }
        None
    }
}

/// The text of one token, under the current slot names.
pub fn token_text(ins: &Instr, resolve: bool, table: &SlotTable) -> (s: String)
    ensures
        s@ == spec_token_text(ins@, resolve, table@),
{
    match ins {
        Instr::True => String::from_str("true"),
        Instr::False => String::from_str("false"),
        Instr::Null => String::from_str("null"),
        Instr::Int8(v) => dec_u32(*v as u32),
        Instr::Int32(b0, b1, b2, b3) => {
            let val: u32 = *b0 as u32 + 256 * (*b1 as u32) + 65536 * (*b2 as u32) + 16777216 * (*b3
                as u32);
            assert(val as nat == le32_val(*b0, *b1, *b2, *b3) as nat);
            dec_u32(val)
        },
        Instr::Text(bs) => {
            let mut s = String::from_str("\"");
            push_clean_text(&mut s, bs.as_slice());
            s.append("\"");
            assert(s@ =~= "\""@ + spec_clean_text(bs@) + "\""@);
            s
        },
        Instr::Slot(idx) => {
            if resolve {
                match table.get(*idx) {
                    Some(name) => {
                        let mut s = String::new();
                        push_clean_text(&mut s, name.as_slice());
                        assert(s@ =~= spec_clean_text(table@[*idx]));
                        s
                    },
                    None => slot_numeral(*idx),
                }
            } else {
                slot_numeral(*idx)
            }
        },
        Instr::Label(idx, name) => {
            let mut s = slot_numeral(*idx);
            s.append("=");
            push_clean_text(&mut s, name.as_slice());
            assert(s@ =~= "#"@ + spec_dec(*idx as nat) + "="@ + spec_clean_text(name@));
            s
        },
        Instr::BlockStart => String::from_str("("),
        Instr::BlockEnd => String::from_str(")"),
        Instr::EndStatement => String::from_str(";"),
        Instr::BadOpcode(op) => {
            let mut s = String::from_str("<bad ");
            let numeral = dec_u32(*op as u32);
            s.append(numeral.as_str());
            s.append(">");
            assert(s@ =~= "<bad "@ + spec_dec(*op as nat) + ">"@);
            s
        },
        Instr::Truncated => String::from_str("<truncated>"),
    }
}

/// `#` followed by the numeric slot index.
fn slot_numeral(idx: u8) -> (s: String)
    ensures
        s@ == "#"@ + spec_dec(idx as nat),
{
    let mut s = String::from_str("#");
    let numeral = dec_u32(idx as u32);
    s.append(numeral.as_str());
    s
}

/// The color marker that opens a token of this category.
fn category_marker(ins: &Instr) -> (marker: &'static str)
    ensures
        marker@ == seq![COLOR_MARK, spec_category(ins@)],
{
    proof {
        reveal_strlit("\u{1b}l");
        reveal_strlit("\u{1b}s");
        reveal_strlit("\u{1b}i");
        reveal_strlit("\u{1b}o");
        reveal_strlit("\u{1b}e");
    }
    match ins {
        Instr::True => "\u{1b}l",
        Instr::False => "\u{1b}l",
        Instr::Null => "\u{1b}l",
        Instr::Int8(_) => "\u{1b}l",
        Instr::Int32(_, _, _, _) => "\u{1b}l",
        Instr::Text(_) => "\u{1b}l",
        Instr::Slot(_) => "\u{1b}s",
        Instr::Label(_, _) => "\u{1b}i",
        Instr::BlockStart => "\u{1b}o",
        Instr::BlockEnd => "\u{1b}o",
        Instr::EndStatement => "\u{1b}o",
        Instr::BadOpcode(_) => "\u{1b}e",
        Instr::Truncated => "\u{1b}e",
    }
}

/// Whether formatted output breaks the line after this token.
fn is_break(ins: &Instr) -> (b: bool)
    ensures
        b == spec_is_break(ins@),
{
    match ins {
        Instr::BlockStart => true,
        Instr::BlockEnd => true,
        Instr::EndStatement => true,
        _ => false,
    }
}

/// The indentation for `depth` open blocks.
fn indent_string(depth: usize) -> (s: String)
    ensures
        s@ == spec_indent(depth as nat),
    decreases depth,
{
    if depth == 0 {
        String::new()
    } else {
        let mut s = String::from_str("  ");
        let rest = indent_string(depth - 1);
        s.append(rest.as_str());
        s
    }
}

/// One step of `render`: appending the indentation, markers, token text
/// and separator of the first instruction extends the output by exactly
/// what `spec_render` emits for it.
proof fn lemma_render_step(
    rest: Seq<InstrModel>,
    formatted: bool,
    colorized: bool,
    resolve: bool,
    env0: Map<u8, Seq<u8>>,
    d0: nat,
    ls0: bool,
    out0: Seq<char>,
    out_new: Seq<char>,
    t: Seq<char>,
)
    requires
        rest.len() > 0,
        t == spec_token_text(rest[0], resolve, env0),
        ({
            let pre = if formatted && ls0 {
                spec_indent(spec_eff_depth(rest[0], d0))
            } else {
                Seq::<char>::empty()
            };
            let mark: Seq<char> = if colorized {
                seq![COLOR_MARK, spec_category(rest[0])]
            } else {
                Seq::<char>::empty()
            };
            let reset: Seq<char> = if colorized {
                seq![COLOR_MARK, 'x']
            } else {
                Seq::<char>::empty()
            };
            let sep: Seq<char> = if formatted && spec_is_break(rest[0]) {
                seq!['\n']
            } else {
                seq![' ']
            };
            out_new == ((((out0 + pre) + mark) + t) + reset) + sep
        }),
    ensures
        out_new + spec_render(
            rest.skip(1),
            formatted,
            colorized,
            resolve,
            spec_env_after(rest[0], env0),
            spec_depth_after(rest[0], d0),
            spec_is_break(rest[0]),
        ) == out0 + spec_render(rest, formatted, colorized, resolve, env0, d0, ls0),
{
    let m = rest[0];
    let pre = if formatted && ls0 {
        spec_indent(spec_eff_depth(m, d0))
    } else {
        Seq::<char>::empty()
    };
    let colored = spec_colored_token(m, colorized, resolve, env0);
    let sep: Seq<char> = if formatted && spec_is_break(m) {
        seq!['\n']
    } else {
        seq![' ']
    };
    let tail = spec_render(
        rest.skip(1),
        formatted,
        colorized,
        resolve,
        spec_env_after(m, env0),
        spec_depth_after(m, d0),
        spec_is_break(m),
    );
    assert(spec_render(rest, formatted, colorized, resolve, env0, d0, ls0) == pre + colored + sep
        + tail);
    assert(out_new + tail =~= out0 + (pre + colored + sep + tail));
}

/// Renders decoded instructions as text, exactly as `spec_render` says,
/// starting with no slot names, depth zero, and a fresh line.
#[verifier::rlimit(100)]
pub fn render(instrs: &Vec<Instr>, formatted: bool, colorized: bool, resolve: bool) -> (out:
    String)
    ensures
        out@ == spec_render(
            seq_view(instrs@),
            formatted,
            colorized,
            resolve,
            Map::<u8, Seq<u8>>::empty(),
            0,
            true,
        ),
{
    let ghost all = seq_view(instrs@);
    let mut out = String::new();
    let mut table = SlotTable::new();
    let mut depth: usize = 0;
    let mut line_start: bool = true;
    let n = instrs.len();
    let mut i: usize = 0;
    assert(all.skip(0) =~= all);
    while i < n
        invariant
            i <= n,
            n == instrs@.len(),
            depth <= i,
            all == seq_view(instrs@),
            spec_render(all, formatted, colorized, resolve, Map::<u8, Seq<u8>>::empty(), 0, true)
                == out@ + spec_render(
                all.skip(i as int),
                formatted,
                colorized,
                resolve,
                table@,
                depth as nat,
                line_start,
            ),
        decreases n - i,
    {
        let ghost rest = all.skip(i as int);
        let ghost env0 = table@;
        let ghost out0 = out@;
        let ghost d0 = depth as nat;
        let ghost ls0 = line_start;
        let ins = &instrs[i];
        let ghost m = ins@;
        proof {
            assert(seq_view(instrs@)[i as int] == instrs@[i as int]@);
            assert(rest[0] == all[i as int]);
        }
        let ghost pre = if formatted && ls0 {
            spec_indent(spec_eff_depth(m, d0))
        } else {
            Seq::<char>::empty()
        };
        let ghost mark: Seq<char> = if colorized {
            seq![COLOR_MARK, spec_category(m)]
        } else {
            Seq::<char>::empty()
        };
        let ghost reset: Seq<char> = if colorized {
            seq![COLOR_MARK, 'x']
        } else {
            Seq::<char>::empty()
        };
        let brk = is_break(ins);
        if formatted && line_start {
            let eff: usize = match ins {
                Instr::BlockEnd => if depth > 0 {
                    depth - 1
                } else {
                    0
                },
                _ => depth,
            };
            proof {
                assert(eff as nat == spec_eff_depth(m, d0));
            }
            let indent = indent_string(eff);
            out.append(indent.as_str());
        }
        let ghost o1 = out@;
        proof {
            if !(formatted && ls0) {
                assert(o1 =~= out0 + pre);
            }
        }
        if colorized {
            out.append(category_marker(ins));
        }
        let ghost o2 = out@;
        proof {
            if !colorized {
                assert(o2 =~= o1 + mark);
            }
        }
        let t = token_text(ins, resolve, &table);
        out.append(t.as_str());
        let ghost o3 = out@;
        if colorized {
            proof {
                reveal_strlit("\u{1b}x");
                assert("\u{1b}x"@ =~= seq![COLOR_MARK, 'x']);
            }
            out.append("\u{1b}x");
        }
        let ghost o4 = out@;
        proof {
            if !colorized {
                assert(o4 =~= o3 + reset);
            }
        }
        if formatted && brk {
            proof {
                reveal_strlit("\n");
                assert("\n"@ =~= seq!['\n']);
            }
            out.append("\n");
        } else {
            proof {
                reveal_strlit(" ");
                assert(" "@ =~= seq![' ']);
            }
            out.append(" ");
        }
        match ins {
            Instr::Label(idx, name) => {
                let copy = vstd::slice::slice_to_vec(name.as_slice());
                table.bind(*idx, copy);
            },
            Instr::BlockStart => {
                depth = depth + 1;
            },
            Instr::BlockEnd => {
                if depth > 0 {
                    depth = depth - 1;
                }
            },
            _ => {},
        }
        line_start = brk;
        proof {
            let sep: Seq<char> = if formatted && spec_is_break(m) {
                seq!['\n']
            } else {
                seq![' ']
            };
            assert(out@ == ((((out0 + pre) + mark) + t@) + reset) + sep);
            lemma_render_step(
                rest,
                formatted,
                colorized,
                resolve,
                env0,
                d0,
                ls0,
                out0,
                out@,
                t@,
            );
            assert(rest.skip(1) =~= all.skip(i + 1));
            assert(table@ == spec_env_after(m, env0));
            assert(depth as nat == spec_depth_after(m, d0));
        }
        i += 1;
    }
    assert(all.skip(n as int) =~= Seq::<InstrModel>::empty());
    out
}

} // verus!
