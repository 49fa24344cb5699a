//! The instruction layer of the decompiler.
//!
//! A DXB buffer is a sequence of instructions: an opcode byte followed by a
//! statically or dynamically sized operand. The buffer is untrusted, so
//! decoding must survive anything: an opcode outside the known set becomes
//! a `BadOpcode` marker and decoding continues at the next byte (recovery
//! is unambiguous there, the bad instruction occupies exactly one byte); a
//! buffer that ends in the middle of an operand becomes a final `Truncated`
//! marker and decoding stops, since the start of the next instruction is
//! unknowable. Both policies are part of the decoding contract and the
//! markers stay visible in the rendered text.

use vstd::prelude::*;

verus! {

/// Opcode: the literal `true`. No operand.
pub const OP_TRUE: u8 = 0x01;

/// Opcode: the literal `false`. No operand.
pub const OP_FALSE: u8 = 0x02;

/// Opcode: the literal `null`. No operand.
pub const OP_NULL: u8 = 0x03;

/// Opcode: an 8-bit integer literal. One operand byte.
pub const OP_INT8: u8 = 0x10;

/// Opcode: a 32-bit integer literal. Four operand bytes, little endian.
pub const OP_INT32: u8 = 0x11;

/// Opcode: a text literal. One length byte, then that many content bytes.
pub const OP_TEXT: u8 = 0x20;

/// Opcode: a slot reference. One operand byte, the slot index.
pub const OP_SLOT: u8 = 0x30;

/// Opcode: slot metadata. One index byte, one length byte, then that many
/// bytes naming the slot. Later slot references to the index may be
/// rendered under this name.
pub const OP_LABEL: u8 = 0x31;

/// Opcode: opens a block. No operand.
pub const OP_BLOCK_START: u8 = 0x40;

/// Opcode: closes a block. No operand.
pub const OP_BLOCK_END: u8 = 0x41;

/// Opcode: ends a statement. No operand.
pub const OP_END_STATEMENT: u8 = 0x50;

/// The mathematical model of one decoded instruction.
///
/// `Int32` keeps the four little-endian operand bytes exactly as read, so
/// that decoding loses nothing; the rendering layer computes the numeric
/// value. `BadOpcode` and `Truncated` record malformed input.
#[verifier::ext_equal]
pub enum InstrModel {
    True,
    False,
    Null,
    Int8(u8),
    Int32(u8, u8, u8, u8),
    Text(Seq<u8>),
    Slot(u8),
    Label(u8, Seq<u8>),
    BlockStart,
    BlockEnd,
    EndStatement,
    BadOpcode(u8),
    Truncated,
}

/// One decoded instruction, as the decoder materializes it.
#[derive(Debug)]
pub enum Instr {
    True,
    False,
    Null,
    Int8(u8),
    Int32(u8, u8, u8, u8),
    Text(Vec<u8>),
    Slot(u8),
    Label(u8, Vec<u8>),
    BlockStart,
    BlockEnd,
    EndStatement,
    BadOpcode(u8),
    Truncated,
}

impl View for Instr {
    type V = InstrModel;

    open spec fn view(&self) -> InstrModel {
        match *self {
            Instr::True => InstrModel::True,
            Instr::False => InstrModel::False,
            Instr::Null => InstrModel::Null,
            Instr::Int8(v) => InstrModel::Int8(v),
            Instr::Int32(b0, b1, b2, b3) => InstrModel::Int32(b0, b1, b2, b3),
            Instr::Text(ref bs) => InstrModel::Text(bs@),
            Instr::Slot(idx) => InstrModel::Slot(idx),
            Instr::Label(idx, ref name) => InstrModel::Label(idx, name@),
            Instr::BlockStart => InstrModel::BlockStart,
            Instr::BlockEnd => InstrModel::BlockEnd,
            Instr::EndStatement => InstrModel::EndStatement,
            Instr::BadOpcode(op) => InstrModel::BadOpcode(op),
            Instr::Truncated => InstrModel::Truncated,
        }
    }
}

/// The models of a sequence of decoded instructions.
pub open spec fn seq_view(instrs: Seq<Instr>) -> Seq<InstrModel> {
    instrs.map_values(|i: Instr| i@)
}

pub proof fn lemma_seq_view_push(instrs: Seq<Instr>, x: Instr)
    ensures
        seq_view(instrs.push(x)) == seq_view(instrs).push(x@),
{
    assert(seq_view(instrs.push(x)) =~= seq_view(instrs).push(x@));
}

/// The value of a four-byte little-endian operand.
pub open spec fn le32_val(b0: u8, b1: u8, b2: u8, b3: u8) -> int {
    b0 + 256 * b1 + 65536 * b2 + 16777216 * b3
}

/// What a byte buffer decodes to.
///
/// Each known opcode either finds its full operand and contributes one
/// instruction, or the buffer is too short and the result ends with a
/// single `Truncated` marker. An unknown opcode contributes a `BadOpcode`
/// marker and decoding resumes at the following byte.
pub open spec fn spec_decode(bytes: Seq<u8>) -> Seq<InstrModel>
    decreases bytes.len(),
{
    if bytes.len() == 0 {
        Seq::empty()
    } else {
        let op = bytes[0];
        if op == OP_TRUE {
            seq![InstrModel::True] + spec_decode(bytes.skip(1))
        } else if op == OP_FALSE {
            seq![InstrModel::False] + spec_decode(bytes.skip(1))
        } else if op == OP_NULL {
            seq![InstrModel::Null] + spec_decode(bytes.skip(1))
        } else if op == OP_INT8 {
            if bytes.len() < 2 {
                seq![InstrModel::Truncated]
            } else {
                seq![InstrModel::Int8(bytes[1])] + spec_decode(bytes.skip(2))
            }
        } else if op == OP_INT32 {
            if bytes.len() < 5 {
                seq![InstrModel::Truncated]
            } else {
                seq![InstrModel::Int32(bytes[1], bytes[2], bytes[3], bytes[4])] + spec_decode(
                    bytes.skip(5),
                )
            }
        } else if op == OP_TEXT {
            if bytes.len() < 2 {
                seq![InstrModel::Truncated]
            } else {
                let tn = bytes[1] as int;
                if bytes.len() < 2 + tn {
                    seq![InstrModel::Truncated]
                } else {
                    seq![InstrModel::Text(bytes.subrange(2, 2 + tn))] + spec_decode(
                        bytes.skip(2 + tn),
                    )
                }
            }
        } else if op == OP_SLOT {
            if bytes.len() < 2 {
                seq![InstrModel::Truncated]
            } else {
                seq![InstrModel::Slot(bytes[1])] + spec_decode(bytes.skip(2))
            }
        } else if op == OP_LABEL {
            if bytes.len() < 3 {
                seq![InstrModel::Truncated]
            } else {
                let tn = bytes[2] as int;
                if bytes.len() < 3 + tn {
                    seq![InstrModel::Truncated]
                } else {
                    seq![InstrModel::Label(bytes[1], bytes.subrange(3, 3 + tn))] + spec_decode(
                        bytes.skip(3 + tn),
                    )
                }
            }
        } else if op == OP_BLOCK_START {
            seq![InstrModel::BlockStart] + spec_decode(bytes.skip(1))
        } else if op == OP_BLOCK_END {
            seq![InstrModel::BlockEnd] + spec_decode(bytes.skip(1))
        } else if op == OP_END_STATEMENT {
            seq![InstrModel::EndStatement] + spec_decode(bytes.skip(1))
        } else {
            seq![InstrModel::BadOpcode(op)] + spec_decode(bytes.skip(1))
        }
    }
}

/// Decodes a DXB buffer into instructions, exactly as `spec_decode` says.
pub fn decode(bytes: &[u8]) -> (instrs: Vec<Instr>)
    ensures
        seq_view(instrs@) == spec_decode(bytes@),
{
    let n = bytes.len();
    let mut out: Vec<Instr> = Vec::new();
    let mut i: usize = 0;
    assert(bytes@.skip(0) =~= bytes@);
    assert(seq_view(out@) + spec_decode(bytes@) =~= spec_decode(bytes@));
    while i < n
        invariant
            i <= n,
            n == bytes@.len(),
            spec_decode(bytes@) == seq_view(out@) + spec_decode(bytes@.skip(i as int)),
        decreases n - i,
    {
        let ghost s = bytes@.skip(i as int);
        let ghost prev = out@;
        let op = bytes[i];
        let left = n - i;
        let mut next: usize = n;
        if op == OP_TRUE {
            out.push(Instr::True);
            next = i + 1;
        } else if op == OP_FALSE {
            out.push(Instr::False);
            next = i + 1;
        } else if op == OP_NULL {
            out.push(Instr::Null);
            next = i + 1;
        } else if op == OP_INT8 {
            if left < 2 {
                out.push(Instr::Truncated);
            } else {
                out.push(Instr::Int8(bytes[i + 1]));
                next = i + 2;
            }
        } else if op == OP_INT32 {
            if left < 5 {
                out.push(Instr::Truncated);
            } else {
                out.push(Instr::Int32(bytes[i + 1], bytes[i + 2], bytes[i + 3], bytes[i + 4]));
                next = i + 5;
            }
        } else if op == OP_TEXT {
            if left < 2 {
                out.push(Instr::Truncated);
            } else {
                let tn = bytes[i + 1] as usize;
                if left - 2 < tn {
                    out.push(Instr::Truncated);
                } else {
                    let content = vstd::slice::slice_to_vec(
                        vstd::slice::slice_subrange(bytes, i + 2, i + 2 + tn),
                    );
                    assert(content@ =~= s.subrange(2, 2 + tn as int));
                    out.push(Instr::Text(content));
                    next = i + 2 + tn;
                }
            }
        } else if op == OP_SLOT {
            if left < 2 {
                out.push(Instr::Truncated);
            } else {
                out.push(Instr::Slot(bytes[i + 1]));
                next = i + 2;
            }
        } else if op == OP_LABEL {
            if left < 3 {
                out.push(Instr::Truncated);
            } else {
                let tn = bytes[i + 2] as usize;
                if left - 3 < tn {
                    out.push(Instr::Truncated);
                } else {
                    let name = vstd::slice::slice_to_vec(
                        vstd::slice::slice_subrange(bytes, i + 3, i + 3 + tn),
                    );
                    assert(name@ =~= s.subrange(3, 3 + tn as int));
                    out.push(Instr::Label(bytes[i + 1], name));
                    next = i + 3 + tn;
                }
            }
        } else if op == OP_BLOCK_START {
            out.push(Instr::BlockStart);
            next = i + 1;
        } else if op == OP_BLOCK_END {
            out.push(Instr::BlockEnd);
            next = i + 1;
        } else if op == OP_END_STATEMENT {
            out.push(Instr::EndStatement);
            next = i + 1;
        } else {
            out.push(Instr::BadOpcode(op));
            next = i + 1;
        }
        proof {
            let m = out@.last()@;
            lemma_seq_view_push(prev, out@.last());
            assert(out@ =~= prev.push(out@.last()));
            if next == n && (s.len() < 5 && s[0] == OP_INT32 || s.len() < 2 && (s[0] == OP_INT8
                || s[0] == OP_TEXT || s[0] == OP_SLOT) || s.len() < 3 && s[0] == OP_LABEL || s[0]
                == OP_TEXT && s.len() >= 2 && s.len() < 2 + s[1] || s[0] == OP_LABEL && s.len() >= 3
                && s.len() < 3 + s[2]) {
                assert(spec_decode(s) == seq![m]);
                assert(bytes@.skip(n as int) =~= Seq::<u8>::empty());
                assert(seq_view(out@) + spec_decode(bytes@.skip(n as int)) =~= seq_view(prev)
                    + spec_decode(s));
            } else {
                let k = next - i;
                assert(s.skip(k as int) =~= bytes@.skip(next as int));
                assert(spec_decode(s) == seq![m] + spec_decode(s.skip(k as int)));
                assert(seq_view(out@) + spec_decode(bytes@.skip(next as int)) =~= seq_view(prev)
                    + spec_decode(s));
            }
        }
        i = next;
    }
    assert(bytes@.skip(n as int) =~= Seq::<u8>::empty());
    assert(seq_view(out@) =~= seq_view(out@) + spec_decode(bytes@.skip(n as int)));
    out
}

/// What one instruction encodes to.
pub open spec fn spec_encode_instr(m: InstrModel) -> Seq<u8> {
    match m {
        InstrModel::True => seq![OP_TRUE],
        InstrModel::False => seq![OP_FALSE],
        InstrModel::Null => seq![OP_NULL],
        InstrModel::Int8(v) => seq![OP_INT8, v],
        InstrModel::Int32(b0, b1, b2, b3) => seq![OP_INT32, b0, b1, b2, b3],
        InstrModel::Text(bs) => seq![OP_TEXT, bs.len() as u8] + bs,
        InstrModel::Slot(idx) => seq![OP_SLOT, idx],
        InstrModel::Label(idx, name) => seq![OP_LABEL, idx, name.len() as u8] + name,
        InstrModel::BlockStart => seq![OP_BLOCK_START],
        InstrModel::BlockEnd => seq![OP_BLOCK_END],
        InstrModel::EndStatement => seq![OP_END_STATEMENT],
        InstrModel::BadOpcode(op) => seq![op],
        InstrModel::Truncated => Seq::empty(),
    }
}

/// What an instruction sequence encodes to: the concatenation of its
/// instructions' encodings.
pub open spec fn spec_encode(ms: Seq<InstrModel>) -> Seq<u8>
    decreases ms.len(),
{
    if ms.len() == 0 {
        Seq::empty()
    } else {
        spec_encode_instr(ms[0]) + spec_encode(ms.skip(1))
    }
}

/// A decode result free of malformed-input markers: what a conformant
/// encoder produces.
pub open spec fn spec_clean(ms: Seq<InstrModel>) -> bool {
    forall|j: int|
        0 <= j < ms.len() ==> !((#[trigger] ms[j]) is BadOpcode) && !(ms[j] is Truncated)
}

/// Decoding is lossless: a buffer that decodes without malformed-input
/// markers is recovered, byte for byte, by re-encoding the decoded
/// instructions. Nothing of the program is lost in decompilation.
pub proof fn lemma_decode_lossless(bytes: Seq<u8>)
    requires
        spec_clean(spec_decode(bytes)),
    ensures
        spec_encode(spec_decode(bytes)) == bytes,
    decreases bytes.len(), 1int,
{
    if bytes.len() == 0 {
        assert(spec_encode(spec_decode(bytes)) =~= bytes);
    } else {
        let op = bytes[0];
        let ms = spec_decode(bytes);
        if op == OP_TEXT && bytes.len() >= 2 && bytes.len() >= 2 + bytes[1] {
            let tn = bytes[1] as int;
            let m = InstrModel::Text(bytes.subrange(2, 2 + tn));
            assert(ms == seq![m] + spec_decode(bytes.skip(2 + tn)));
            assert(spec_encode_instr(m) =~= bytes.take(2 + tn));
            lemma_decode_lossless_step(bytes, 2 + tn);
        } else if op == OP_LABEL && bytes.len() >= 3 && bytes.len() >= 3 + bytes[2] {
            let tn = bytes[2] as int;
            let m = InstrModel::Label(bytes[1], bytes.subrange(3, 3 + tn));
            assert(ms == seq![m] + spec_decode(bytes.skip(3 + tn)));
            assert(spec_encode_instr(m) =~= bytes.take(3 + tn));
            lemma_decode_lossless_step(bytes, 3 + tn);
        } else if op == OP_INT8 && bytes.len() >= 2 {
            let m = InstrModel::Int8(bytes[1]);
            assert(ms == seq![m] + spec_decode(bytes.skip(2)));
            assert(spec_encode_instr(m) =~= bytes.take(2));
            lemma_decode_lossless_step(bytes, 2);
        } else if op == OP_INT32 && bytes.len() >= 5 {
            let m = InstrModel::Int32(bytes[1], bytes[2], bytes[3], bytes[4]);
            assert(ms == seq![m] + spec_decode(bytes.skip(5)));
            assert(spec_encode_instr(m) =~= bytes.take(5));
            lemma_decode_lossless_step(bytes, 5);
        } else if op == OP_SLOT && bytes.len() >= 2 {
            let m = InstrModel::Slot(bytes[1]);
            assert(ms == seq![m] + spec_decode(bytes.skip(2)));
            assert(spec_encode_instr(m) =~= bytes.take(2));
            lemma_decode_lossless_step(bytes, 2);
        } else if op == OP_TRUE || op == OP_FALSE || op == OP_NULL || op == OP_BLOCK_START || op
            == OP_BLOCK_END || op == OP_END_STATEMENT {
            assert(ms == seq![ms[0]] + spec_decode(bytes.skip(1)));
            assert(spec_encode_instr(ms[0]) =~= bytes.take(1));
            lemma_decode_lossless_step(bytes, 1);
        } else {
            // Every remaining branch of `spec_decode` yields a `BadOpcode`
            // or `Truncated` marker, which `spec_clean` rules out.
            assert(ms[0] is BadOpcode || ms[0] is Truncated);
            assert(false);
        }
    }
}

/// One step of `lemma_decode_lossless`: the first instruction occupies the
/// first `k` bytes, and the rest of the buffer round-trips by induction.
proof fn lemma_decode_lossless_step(bytes: Seq<u8>, k: int)
    requires
        0 < k <= bytes.len(),
        spec_clean(spec_decode(bytes)),
        spec_decode(bytes).len() >= 1,
        spec_decode(bytes) == seq![spec_decode(bytes)[0]] + spec_decode(bytes.skip(k)),
        spec_encode_instr(spec_decode(bytes)[0]) == bytes.take(k),
    ensures
        spec_encode(spec_decode(bytes)) == bytes,
    decreases bytes.len(), 0int,
{
    let ms = spec_decode(bytes);
    let tail = spec_decode(bytes.skip(k));
    assert(ms.skip(1) =~= tail);
    assert(spec_encode(ms) == spec_encode_instr(ms[0]) + spec_encode(tail));
    assert forall|j: int| 0 <= j < tail.len() implies !((#[trigger] tail[j]) is BadOpcode) && !(
    tail[j] is Truncated) by {
        assert(tail[j] == ms[j + 1]);
    }
    lemma_decode_lossless(bytes.skip(k));
    assert(bytes.take(k) + bytes.skip(k) =~= bytes);
}

/// What one instruction of a conformant encoder may hold: no
/// malformed-input marker, and a text or name payload that fits its
/// length byte.
pub open spec fn spec_encodable_instr(m: InstrModel) -> bool {
    match m {
        InstrModel::Text(bs) => bs.len() <= 255,
        InstrModel::Label(_, name) => name.len() <= 255,
        InstrModel::BadOpcode(_) => false,
        InstrModel::Truncated => false,
        _ => true,
    }
}

/// An instruction sequence a conformant encoder can produce.
pub open spec fn spec_encodable(ms: Seq<InstrModel>) -> bool {
    forall|j: int| 0 <= j < ms.len() ==> spec_encodable_instr(#[trigger] ms[j])
}

/// The converse of `lemma_decode_lossless`: a buffer written by a
/// conformant encoder decodes to exactly the instructions it encoded —
/// nothing is added, dropped or reordered.
pub proof fn lemma_encode_decode(ms: Seq<InstrModel>)
    requires
        spec_encodable(ms),
    ensures
        spec_decode(spec_encode(ms)) == ms,
    decreases ms.len(),
{
    if ms.len() == 0 {
        assert(spec_decode(spec_encode(ms)) =~= ms);
    } else {
        let m = ms[0];
        let e = spec_encode_instr(m);
        let rest = spec_encode(ms.skip(1));
        let u = e + rest;
        assert(spec_encodable_instr(ms[0]));
        assert(spec_encode(ms) == u);
        match m {
            InstrModel::Int8(v) => {
                assert(u[0] == OP_INT8 && u[1] == v);
                assert(u.skip(2) =~= rest);
                assert(spec_decode(u) == seq![m] + spec_decode(rest));
            },
            InstrModel::Int32(b0, b1, b2, b3) => {
                assert(u[0] == OP_INT32 && u[1] == b0 && u[2] == b1 && u[3] == b2 && u[4] == b3);
                assert(u.skip(5) =~= rest);
                assert(spec_decode(u) == seq![m] + spec_decode(rest));
            },
            InstrModel::Text(bs) => {
                let tn = bs.len() as int;
                assert(u[0] == OP_TEXT && u[1] == bs.len() as u8);
                assert(u.len() == 2 + tn + rest.len());
                assert(u.subrange(2, 2 + tn) =~= bs);
                assert(u.skip(2 + tn) =~= rest);
                assert(spec_decode(u) == seq![m] + spec_decode(rest));
            },
            InstrModel::Slot(idx) => {
                assert(u[0] == OP_SLOT && u[1] == idx);
                assert(u.skip(2) =~= rest);
                assert(spec_decode(u) == seq![m] + spec_decode(rest));
            },
            InstrModel::Label(idx, name) => {
                let tn = name.len() as int;
                assert(u[0] == OP_LABEL && u[1] == idx && u[2] == name.len() as u8);
                assert(u.len() == 3 + tn + rest.len());
                assert(u.subrange(3, 3 + tn) =~= name);
                assert(u.skip(3 + tn) =~= rest);
                assert(spec_decode(u) == seq![m] + spec_decode(rest));
            },
            InstrModel::BadOpcode(_) => {
                assert(false);
            },
            InstrModel::Truncated => {
                assert(false);
            },
            _ => {
                assert(u.len() == 1 + rest.len());
                assert(u.skip(1) =~= rest);
                assert(spec_decode(u) == seq![m] + spec_decode(rest));
            },
        }
        assert forall|j: int| 0 <= j < ms.skip(1).len() implies spec_encodable_instr(
            #[trigger] ms.skip(1)[j],
        ) by {
            assert(ms.skip(1)[j] == ms[j + 1]);
        }
        lemma_encode_decode(ms.skip(1));
        assert(seq![m] + ms.skip(1) =~= ms);
    }
}

/// A buffer whose first opcode declares a four-byte operand but holds
/// fewer bytes decodes to a single visible truncation marker: malformed
/// input is reported in the output, never by a failure.
pub proof fn lemma_truncated_operand(bytes: Seq<u8>)
    requires
        bytes.len() > 0,
        bytes[0] == OP_INT32,
        bytes.len() < 5,
    ensures
        spec_decode(bytes) == seq![InstrModel::Truncated],
{
}

/// Decoding is compositional at instruction boundaries: a buffer that
/// decodes without malformed-input markers, followed by further bytes,
/// decodes to its own instructions followed by the decoding of the rest.
pub proof fn lemma_decode_of_concat(s: Seq<u8>, t: Seq<u8>)
    requires
        spec_clean(spec_decode(s)),
    ensures
        spec_decode(s + t) == spec_decode(s) + spec_decode(t),
    decreases s.len(), 1int,
{
    if s.len() == 0 {
        assert(s + t =~= t);
        assert(spec_decode(s) + spec_decode(t) =~= spec_decode(t));
    } else {
        let op = s[0];
        let u = s + t;
        let ms = spec_decode(s);
        assert(u[0] == s[0]);
        if op == OP_TEXT {
            if s.len() < 2 || s.len() < 2 + s[1] {
                assert(ms[0] is Truncated);
                assert(false);
            }
            let tn = s[1] as int;
            let m = InstrModel::Text(s.subrange(2, 2 + tn));
            assert(ms == seq![m] + spec_decode(s.skip(2 + tn)));
            assert(u.subrange(2, 2 + tn) =~= s.subrange(2, 2 + tn));
            assert(u.skip(2 + tn) =~= s.skip(2 + tn) + t);
            assert(spec_decode(u) == seq![m] + spec_decode(s.skip(2 + tn) + t));
            lemma_decode_concat_step(s, t, 2 + tn, m);
        } else if op == OP_LABEL {
            if s.len() < 3 || s.len() < 3 + s[2] {
                assert(ms[0] is Truncated);
                assert(false);
            }
            let tn = s[2] as int;
            let m = InstrModel::Label(s[1], s.subrange(3, 3 + tn));
            assert(ms == seq![m] + spec_decode(s.skip(3 + tn)));
            assert(u.subrange(3, 3 + tn) =~= s.subrange(3, 3 + tn));
            assert(u.skip(3 + tn) =~= s.skip(3 + tn) + t);
            assert(spec_decode(u) == seq![m] + spec_decode(s.skip(3 + tn) + t));
            lemma_decode_concat_step(s, t, 3 + tn, m);
        } else if op == OP_INT8 || op == OP_SLOT {
            if s.len() < 2 {
                assert(ms[0] is Truncated);
                assert(false);
            }
            assert(ms == seq![ms[0]] + spec_decode(s.skip(2)));
            assert(u.skip(2) =~= s.skip(2) + t);
            assert(spec_decode(u) == seq![ms[0]] + spec_decode(s.skip(2) + t));
            lemma_decode_concat_step(s, t, 2, ms[0]);
        } else if op == OP_INT32 {
            if s.len() < 5 {
                assert(ms[0] is Truncated);
                assert(false);
            }
            assert(ms == seq![ms[0]] + spec_decode(s.skip(5)));
            assert(u.skip(5) =~= s.skip(5) + t);
            assert(spec_decode(u) == seq![ms[0]] + spec_decode(s.skip(5) + t));
            lemma_decode_concat_step(s, t, 5, ms[0]);
        } else if op == OP_TRUE || op == OP_FALSE || op == OP_NULL || op == OP_BLOCK_START || op
            == OP_BLOCK_END || op == OP_END_STATEMENT {
            assert(ms == seq![ms[0]] + spec_decode(s.skip(1)));
            assert(u.skip(1) =~= s.skip(1) + t);
            assert(spec_decode(u) == seq![ms[0]] + spec_decode(s.skip(1) + t));
            lemma_decode_concat_step(s, t, 1, ms[0]);
        } else {
            assert(ms[0] is BadOpcode);
            assert(false);
        }
    }
}

/// One step of `lemma_decode_of_concat`: with the first instruction and
/// its size agreed on both sides, the rest follows by induction.
proof fn lemma_decode_concat_step(s: Seq<u8>, t: Seq<u8>, k: int, m: InstrModel)
    requires
        0 < k <= s.len(),
        spec_clean(spec_decode(s)),
        spec_decode(s) == seq![m] + spec_decode(s.skip(k)),
        spec_decode(s + t) == seq![m] + spec_decode(s.skip(k) + t),
    ensures
        spec_decode(s + t) == spec_decode(s) + spec_decode(t),
    decreases s.len(), 0int,
{
    let ms = spec_decode(s);
    let tail = spec_decode(s.skip(k));
    assert forall|j: int| 0 <= j < tail.len() implies !((#[trigger] tail[j]) is BadOpcode) && !(
    tail[j] is Truncated) by {
        assert(tail[j] == ms[j + 1]);
    }
    lemma_decode_of_concat(s.skip(k), t);
    assert(seq![m] + (tail + spec_decode(t)) =~= (seq![m] + tail) + spec_decode(t));
}

/// A buffer cut in the middle of an instruction decodes to everything
/// before the cut plus one visible truncation marker: the output is kept
/// up to the truncation point, and the break is reported in it.
pub proof fn lemma_truncation_keeps_prefix(s: Seq<u8>, t: Seq<u8>)
    requires
        spec_clean(spec_decode(s)),
        t.len() > 0,
        t[0] == OP_INT32,
        t.len() < 5,
    ensures
        spec_decode(s + t) == spec_decode(s).push(InstrModel::Truncated),
{
    lemma_decode_of_concat(s, t);
    lemma_truncated_operand(t);
    assert(spec_decode(s) + seq![InstrModel::Truncated] =~= spec_decode(s).push(
        InstrModel::Truncated,
    ));
}

} // verus!
