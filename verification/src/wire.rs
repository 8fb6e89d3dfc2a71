//! Verified codec for the protobuf wire format.
//!
//! A message body is a sequence of numbered fields.  A field carries either
//! a varint (wire type 0) or a length-delimited byte string (wire type 2).
//! Encoding follows the canonical proto3 form: a field is written as a tag
//! varint `field number * 8 + wire type`, then its payload.  The decoder is
//! total over arbitrary byte strings and is proved to invert the encoder.

use vstd::arithmetic::power::pow;
use vstd::prelude::*;

verus! {

/// Largest field number the codec accepts when encoding, small enough that
/// every tag computation stays well inside `u64`.
pub const MAX_FIELD_NUM: u64 = 0x1000;

/// Longest byte-string payload the embedded chain stores in one field.
/// Bounding stored fields keeps every nested message encoding well inside
/// the range of its length prefix.
pub const MAX_TEXT_LEN: usize = 0x10000;

// ---------------------------------------------------------------------------
// Varints
// ---------------------------------------------------------------------------

/// Canonical little-endian base-128 encoding of `n`.
pub open spec fn spec_varint(n: u64) -> Seq<u8>
    decreases n,
{
    if n < 128 {
        seq![n as u8]
    } else {
        seq![(n % 128 + 128) as u8] + spec_varint(n / 128)
    }
}

pub proof fn lemma_varint_len(n: u64)
    ensures
        1 <= spec_varint(n).len(),
    decreases n,
{
    if n >= 128 {
        lemma_varint_len(n / 128);
    }
}

/// Total parser for varints: returns the value and the index one past its
/// last byte, or `None` when the bytes run out or the value overflows `u64`.
pub open spec fn spec_parse_varint(s: Seq<u8>, i: int) -> Option<(u64, int)>
    decreases s.len() - i,
{
    if i < 0 || i >= s.len() {
        None
    } else {
        let b = s[i];
        if b < 128 {
            Some((b as u64, i + 1))
        } else {
            match spec_parse_varint(s, i + 1) {
                None => None,
                Some((v, j)) => if v <= (u64::MAX - (b - 128)) as u64 / 128 {
                    Some(((v * 128 + (b - 128)) as u64, j))
                } else {
                    None
                },
            }
        }
    }
}

/// Parsing inverts encoding: wherever `spec_varint(n)` sits inside `s`,
/// the parser started at its first byte returns `n` and stops after it.
pub proof fn lemma_parse_varint_round_trip(s: Seq<u8>, i: int, n: u64)
    requires
        0 <= i,
        i + spec_varint(n).len() <= s.len(),
        s.subrange(i, i + spec_varint(n).len() as int) == spec_varint(n),
    ensures
        spec_parse_varint(s, i) == Some((n, i + spec_varint(n).len())),
    decreases n,
{
    let e = spec_varint(n);
    assert(s[i] == e[0]);
    if n < 128 {
        assert(e =~= seq![n as u8]);
    } else {
        let tail = spec_varint(n / 128);
        assert(e == seq![(n % 128 + 128) as u8] + tail);
        assert(s[i] == (n % 128 + 128) as u8);
        assert(s.subrange(i + 1, i + 1 + tail.len() as int) =~= tail) by {
            assert forall|k: int| 0 <= k < tail.len() implies s.subrange(
                i + 1,
                i + 1 + tail.len() as int,
            )[k] == tail[k] by {
                assert(s[i + 1 + k] == e[1 + k]);
            }
        }
        lemma_parse_varint_round_trip(s, i + 1, n / 128);
        let b = s[i];
        let v = n / 128;
        assert(b - 128 == n % 128);
        assert(v * 128 + n % 128 == n) by (nonlinear_arith)
            requires v == n / 128,
        ;
        assert(v <= (u64::MAX - (b - 128)) as u64 / 128) by (nonlinear_arith)
            requires
                v * 128 + (b - 128) == n,
                n <= u64::MAX,
                0 <= b - 128 < 128,
                v >= 0,
        ;
    }
}

/// Appends the canonical varint encoding of `n` to `out`.
pub fn encode_varint(out: &mut Vec<u8>, n: u64)
    ensures
        final(out)@ == old(out)@ + spec_varint(n),
    decreases n,
{
    if n < 128 {
        out.push(n as u8);
        assert(out@ =~= old(out)@ + spec_varint(n));
    } else {
        out.push((n % 128 + 128) as u8);
        encode_varint(out, n / 128);
        assert(out@ =~= old(out)@ + spec_varint(n));
    }
}

/// Parsing a varint that sits at `pre.len()` between `pre` and `suf`.
pub proof fn lemma_parse_varint_at(pre: Seq<u8>, n: u64, suf: Seq<u8>)
    ensures
        spec_parse_varint(pre + spec_varint(n) + suf, pre.len() as int) == Some(
            (n, pre.len() + spec_varint(n).len() as int),
        ),
{
    let s = pre + spec_varint(n) + suf;
    let e = spec_varint(n);
    assert(s.subrange(pre.len() as int, pre.len() + e.len() as int) =~= e);
    lemma_parse_varint_round_trip(s, pre.len() as int, n);
}

/// Parses a varint from `buf` at `pos`, exactly as the spec parser does.
pub fn decode_varint(buf: &Vec<u8>, pos: usize) -> (r: Option<(u64, usize)>)
    ensures
        match r {
            Some((v, j)) => spec_parse_varint(buf@, pos as int) == Some((v, j as int)),
            None => spec_parse_varint(buf@, pos as int) is None,
        },
    decreases buf.len() - pos,
{
    if pos >= buf.len() {
        None
    } else {
        let b = buf[pos];
        if b < 128 {
            Some((b as u64, pos + 1))
        } else {
            match decode_varint(buf, pos + 1) {
                None => None,
                Some((v, j)) => {
                    if v <= (u64::MAX - ((b - 128) as u64)) / 128 {
                        Some((v * 128 + (b - 128) as u64, j))
                    } else {
                        None
                    }
                },
            }
        }
    }
}

// ---------------------------------------------------------------------------
// Fields
// ---------------------------------------------------------------------------

/// Mathematical value of one wire field.
pub enum FieldValV {
    Varint(u64),
    Bytes(Seq<u8>),
}

/// Mathematical form of one numbered wire field.
pub struct FieldV {
    pub num: u64,
    pub val: FieldValV,
}

/// Payload of one decoded wire field.
pub enum FieldVal {
    Varint(u64),
    Bytes(Vec<u8>),
}

/// One decoded wire field: a field number with its payload.
pub struct Field {
    pub num: u64,
    pub val: FieldVal,
}

impl View for Field {
    type V = FieldV;

    open spec fn view(&self) -> FieldV {
        FieldV {
            num: self.num,
            val: match self.val {
                FieldVal::Varint(v) => FieldValV::Varint(v),
                FieldVal::Bytes(b) => FieldValV::Bytes(b@),
            },
        }
    }
}

impl DeepView for Field {
    type V = FieldV;

    open spec fn deep_view(&self) -> FieldV {
        self.view()
    }
}

/// A field number the encoder accepts, and a payload whose length fits the
/// length prefix.
pub open spec fn field_wf(f: FieldV) -> bool {
    &&& 1 <= f.num <= MAX_FIELD_NUM
    &&& match f.val {
        FieldValV::Varint(_) => true,
        FieldValV::Bytes(b) => b.len() <= u64::MAX,
    }
}

pub open spec fn fields_wf(fs: Seq<FieldV>) -> bool {
    forall|i: int| 0 <= i < fs.len() ==> field_wf(#[trigger] fs[i])
}

/// Canonical encoding of one field: tag varint, then the payload.
pub open spec fn spec_enc_field(f: FieldV) -> Seq<u8> {
    match f.val {
        FieldValV::Varint(v) => spec_varint((f.num * 8) as u64) + spec_varint(v),
        FieldValV::Bytes(b) => spec_varint((f.num * 8 + 2) as u64) + spec_varint(b.len() as u64)
            + b,
    }
}

/// Canonical encoding of a field list, in order.
pub open spec fn spec_enc_fields(fs: Seq<FieldV>) -> Seq<u8>
    decreases fs.len(),
{
    if fs.len() == 0 {
        Seq::empty()
    } else {
        spec_enc_field(fs[0]) + spec_enc_fields(fs.skip(1))
    }
}

pub proof fn lemma_enc_fields_concat(a: Seq<FieldV>, b: Seq<FieldV>)
    ensures
        spec_enc_fields(a + b) == spec_enc_fields(a) + spec_enc_fields(b),
    decreases a.len(),
{
    if a.len() == 0 {
        assert(a + b =~= b);
        assert(spec_enc_fields(a) + spec_enc_fields(b) =~= spec_enc_fields(b));
    } else {
        assert((a + b).skip(1) =~= a.skip(1) + b);
        lemma_enc_fields_concat(a.skip(1), b);
        assert(spec_enc_fields(a + b) =~= spec_enc_fields(a) + spec_enc_fields(b));
    }
}

pub proof fn lemma_enc_fields_one(f: FieldV)
    ensures
        spec_enc_fields(seq![f]) == spec_enc_field(f),
{
    assert(seq![f].skip(1) =~= Seq::<FieldV>::empty());
    assert(seq![f][0] == f);
    assert(spec_enc_fields(Seq::<FieldV>::empty()) == Seq::<u8>::empty());
    assert(spec_enc_field(f) + Seq::<u8>::empty() =~= spec_enc_field(f));
}

/// Total parser for a field list running from `i` to the end of `s`.
pub open spec fn spec_parse_fields(s: Seq<u8>, i: int) -> Option<Seq<FieldV>>
    decreases s.len() - i,
{
    if i == s.len() {
        Some(Seq::empty())
    } else if i < 0 || i > s.len() {
        None
    } else {
        match spec_parse_varint(s, i) {
            None => None,
            Some((tag, j)) => if !(i < j <= s.len()) {
                None
            } else {
                let num = tag / 8;
                let wt = tag % 8;
                if num == 0 {
                    None
                } else if wt == 0 {
                    match spec_parse_varint(s, j) {
                        None => None,
                        Some((v, k)) => if !(j < k <= s.len()) {
                            None
                        } else {
                            match spec_parse_fields(s, k) {
                                None => None,
                                Some(fs) => Some(
                                    seq![FieldV { num, val: FieldValV::Varint(v) }] + fs,
                                ),
                            }
                        },
                    }
                } else if wt == 2 {
                    match spec_parse_varint(s, j) {
                        None => None,
                        Some((len, k)) => if !(j < k <= s.len()) || k + len > s.len() {
                            None
                        } else {
                            match spec_parse_fields(s, k + len) {
                                None => None,
                                Some(fs) => Some(
                                    seq![
                                        FieldV {
                                            num,
                                            val: FieldValV::Bytes(s.subrange(k, k + len)),
                                        },
                                    ] + fs,
                                ),
                            }
                        },
                    }
                } else {
                    None
                }
            },
        }
    }
}

/// Parsing inverts encoding: a well-formed field list written after `pre`
/// parses back to itself.
pub proof fn lemma_parse_enc_fields(pre: Seq<u8>, fs: Seq<FieldV>)
    requires
        fields_wf(fs),
    ensures
        spec_parse_fields(pre + spec_enc_fields(fs), pre.len() as int) == Some(fs),
    decreases fs.len(), 1int,
{
    let s = pre + spec_enc_fields(fs);
    if fs.len() == 0 {
        assert(s =~= pre);
    } else {
        match fs[0].val {
            FieldValV::Varint(_) => {
                lemma_parse_enc_fields_varint(pre, fs);
            },
            FieldValV::Bytes(_) => {
                lemma_parse_enc_fields_bytes(pre, fs);
            },
        }
    }
}

#[verifier::spinoff_prover]
proof fn lemma_parse_enc_fields_varint(pre: Seq<u8>, fs: Seq<FieldV>)
    requires
        fields_wf(fs),
        fs.len() > 0,
        fs[0].val is Varint,
    ensures
        spec_parse_fields(pre + spec_enc_fields(fs), pre.len() as int) == Some(fs),
    decreases fs.len(), 0int,
{
    let s = pre + spec_enc_fields(fs);
    let f = fs[0];
    let rest = fs.skip(1);
    assert(field_wf(f));
    assert(fields_wf(rest)) by {
        assert(forall|i: int| 0 <= i < rest.len() ==> rest[i] == fs[i + 1]);
    }
    let v = f.val->Varint_0;
    let tag = (f.num * 8) as u64;
    let tseq = spec_varint(tag);
    let vseq = spec_varint(v);
    let tail = spec_enc_fields(rest);
    assert(s =~= pre + tseq + (vseq + tail));
    lemma_parse_varint_at(pre, tag, vseq + tail);
    let j: int = pre.len() + tseq.len() as int;
    lemma_varint_len(tag);
    assert(tag == f.num * 8);
    assert(tag / 8 == f.num && tag % 8 == 0) by (nonlinear_arith)
        requires
            tag == f.num * 8,
    ;
    assert(s =~= (pre + tseq) + vseq + tail);
    lemma_parse_varint_at(pre + tseq, v, tail);
    let k: int = j + vseq.len() as int;
    lemma_varint_len(v);
    assert(s =~= (pre + tseq + vseq) + spec_enc_fields(rest));
    lemma_parse_enc_fields(pre + tseq + vseq, rest);
    assert(spec_parse_fields(s, k) == Some(rest));
    assert(seq![FieldV { num: f.num, val: FieldValV::Varint(v) }] + rest =~= fs);
}

#[verifier::rlimit(100)]
#[verifier::spinoff_prover]
proof fn lemma_parse_enc_fields_bytes(pre: Seq<u8>, fs: Seq<FieldV>)
    requires
        fields_wf(fs),
        fs.len() > 0,
        fs[0].val is Bytes,
    ensures
        spec_parse_fields(pre + spec_enc_fields(fs), pre.len() as int) == Some(fs),
    decreases fs.len(), 0int,
{
    let s = pre + spec_enc_fields(fs);
    let f = fs[0];
    let rest = fs.skip(1);
    assert(field_wf(f));
    assert(fields_wf(rest)) by {
        assert(forall|i: int| 0 <= i < rest.len() ==> rest[i] == fs[i + 1]);
    }
    let b = f.val->Bytes_0;
    let tag = (f.num * 8 + 2) as u64;
    let tseq = spec_varint(tag);
    let blen = b.len() as u64;
    let lseq = spec_varint(blen);
    let tail = spec_enc_fields(rest);
    assert(s =~= pre + tseq + (lseq + b + tail));
    lemma_parse_varint_at(pre, tag, lseq + b + tail);
    let j: int = pre.len() + tseq.len() as int;
    lemma_varint_len(tag);
    assert(tag == f.num * 8 + 2);
    assert(tag / 8 == f.num && tag % 8 == 2) by (nonlinear_arith)
        requires
            tag == f.num * 8 + 2,
    ;
    assert(s =~= (pre + tseq) + lseq + (b + tail));
    lemma_parse_varint_at(pre + tseq, blen, b + tail);
    let k: int = j + lseq.len() as int;
    lemma_varint_len(blen);
    assert(blen == b.len());
    assert(k + b.len() as int <= s.len());
    assert(s.subrange(k, k + b.len() as int) =~= b);
    assert(s =~= (pre + tseq + lseq + b) + spec_enc_fields(rest));
    lemma_parse_enc_fields(pre + tseq + lseq + b, rest);
    assert(spec_parse_fields(s, k + b.len() as int) == Some(rest));
    assert(seq![FieldV { num: f.num, val: FieldValV::Bytes(b) }] + rest =~= fs);
}

// ---------------------------------------------------------------------------
// Executable field encoding and decoding
// ---------------------------------------------------------------------------

/// Appends the tag and payload of a varint field.
pub fn encode_varint_field(out: &mut Vec<u8>, num: u64, v: u64)
    requires
        1 <= num <= MAX_FIELD_NUM,
    ensures
        final(out)@ == old(out)@ + spec_enc_field(FieldV { num, val: FieldValV::Varint(v) }),
{
    encode_varint(out, num * 8);
    encode_varint(out, v);
    assert(out@ =~= old(out)@ + spec_enc_field(FieldV { num, val: FieldValV::Varint(v) }));
}

/// Appends the tag, length prefix and payload of a byte-string field.
pub fn encode_bytes_field(out: &mut Vec<u8>, num: u64, b: &Vec<u8>)
    requires
        1 <= num <= MAX_FIELD_NUM,
    ensures
        final(out)@ == old(out)@ + spec_enc_field(FieldV { num, val: FieldValV::Bytes(b@) }),
{
    encode_varint(out, num * 8 + 2);
    encode_varint(out, b.len() as u64);
    let mut i: usize = 0;
    let ghost mid = out@;
    while i < b.len()
        invariant
            0 <= i <= b.len(),
            out@ == mid + b@.subrange(0, i as int),
        decreases b.len() - i,
    {
        out.push(b[i]);
        assert(out@ =~= mid + b@.subrange(0, i + 1));
        i = i + 1;
    }
    assert(b@.subrange(0, b@.len() as int) =~= b@);
    assert(out@ =~= old(out)@ + spec_enc_field(FieldV { num, val: FieldValV::Bytes(b@) }));
}

/// Decodes the field list that runs from `pos` to the end of `buf`,
/// exactly as the spec parser does.
pub fn decode_fields_from(buf: &Vec<u8>, pos: usize) -> (r: Option<Vec<Field>>)
    requires
        pos <= buf.len(),
    ensures
        match r {
            Some(fs) => spec_parse_fields(buf@, pos as int) == Some(fs.deep_view()),
            None => spec_parse_fields(buf@, pos as int) is None,
        },
    decreases buf.len() - pos,
{
    if pos == buf.len() {
        let fs: Vec<Field> = Vec::new();
        assert(fs.deep_view() =~= Seq::<FieldV>::empty());
        return Some(fs);
    }
    let (tag, j) = match decode_varint(buf, pos) {
        None => {
            return None;
        },
        Some(p) => p,
    };
    if !(pos < j && j <= buf.len()) {
        return None;
    }
    let num = tag / 8;
    let wt = tag % 8;
    if num == 0 {
        return None;
    }
    if wt == 0 {
        let (v, k) = match decode_varint(buf, j) {
            None => {
                return None;
            },
            Some(p) => p,
        };
        if !(j < k && k <= buf.len()) {
            return None;
        }
        match decode_fields_from(buf, k) {
            None => None,
            Some(mut fs) => {
                let ghost tailv = fs.deep_view();
                fs.insert(0, Field { num, val: FieldVal::Varint(v) });
                assert(fs.deep_view() =~= seq![FieldV { num, val: FieldValV::Varint(v) }] + tailv);
                Some(fs)
            },
        }
    } else if wt == 2 {
        let (len, k) = match decode_varint(buf, j) {
            None => {
                return None;
            },
            Some(p) => p,
        };
        if !(j < k && k <= buf.len()) {
            return None;
        }
        if len > (buf.len() - k) as u64 {
            return None;
        }
        let end = k + len as usize;
        let piece: &[u8] = &buf.as_slice()[k..end];
        let bytes = vstd::slice::slice_to_vec(piece);
        match decode_fields_from(buf, end) {
            None => None,
            Some(mut fs) => {
                let ghost tailv = fs.deep_view();
                fs.insert(0, Field { num, val: FieldVal::Bytes(bytes) });
                assert(fs.deep_view() =~= seq![
                    FieldV { num, val: FieldValV::Bytes(buf@.subrange(k as int, k + len as int)) },
                ] + tailv);
                Some(fs)
            },
        }
    } else {
        None
    }
}

/// Generic left fold over a field list, the shape every message decoder
/// takes: start from the message's default value and apply fields in order,
/// so that a later occurrence of a field number overrides an earlier one.
pub open spec fn spec_fold_fields<A>(fs: Seq<FieldV>, acc: A, step: spec_fn(A, FieldV) -> A) -> A
    decreases fs.len(),
{
    if fs.len() == 0 {
        acc
    } else {
        spec_fold_fields(fs.skip(1), step(acc, fs[0]), step)
    }
}

pub proof fn lemma_fold_fields_concat<A>(
    a: Seq<FieldV>,
    b: Seq<FieldV>,
    acc: A,
    step: spec_fn(A, FieldV) -> A,
)
    ensures
        spec_fold_fields(a + b, acc, step) == spec_fold_fields(
            b,
            spec_fold_fields(a, acc, step),
            step,
        ),
    decreases a.len(),
{
    if a.len() == 0 {
        assert(a + b =~= b);
    } else {
        assert((a + b).skip(1) =~= a.skip(1) + b);
        lemma_fold_fields_concat(a.skip(1), b, step(acc, a[0]), step);
    }
}

pub proof fn lemma_fold_fields_one<A>(f: FieldV, acc: A, step: spec_fn(A, FieldV) -> A)
    ensures
        spec_fold_fields(seq![f], acc, step) == step(acc, f),
{
    assert(seq![f].skip(1) =~= Seq::<FieldV>::empty());
    assert(seq![f][0] == f);
    assert(spec_fold_fields(Seq::<FieldV>::empty(), step(acc, f), step) == step(acc, f));
}

/// One decoding step: folding a prefix one longer applies `step` once more.
pub proof fn lemma_fold_fields_take_step<A>(
    fs: Seq<FieldV>,
    i: int,
    acc: A,
    step: spec_fn(A, FieldV) -> A,
)
    requires
        0 <= i < fs.len(),
    ensures
        spec_fold_fields(fs.take(i + 1), acc, step) == step(
            spec_fold_fields(fs.take(i), acc, step),
            fs[i],
        ),
{
    assert(fs.take(i + 1) =~= fs.take(i) + seq![fs[i]]);
    lemma_fold_fields_concat(fs.take(i), seq![fs[i]], acc, step);
    lemma_fold_fields_one(fs[i], spec_fold_fields(fs.take(i), acc, step), step);
}

// ---------------------------------------------------------------------------
// Field pieces: the conditional single-field lists message codecs are built
// from.  Canonical proto3 encoding omits a scalar field holding its default
// value, so a piece is empty exactly when its value is the default.
// ---------------------------------------------------------------------------

/// A byte-string field, omitted when empty.
pub open spec fn bytes_piece(num: u64, b: Seq<u8>) -> Seq<FieldV> {
    if b.len() == 0 {
        Seq::empty()
    } else {
        seq![FieldV { num, val: FieldValV::Bytes(b) }]
    }
}

/// A `u64` varint field, omitted when zero.
pub open spec fn u64_piece(num: u64, v: u64) -> Seq<FieldV> {
    if v == 0 {
        Seq::empty()
    } else {
        seq![FieldV { num, val: FieldValV::Varint(v) }]
    }
}

/// A `u32` varint field, omitted when zero.
pub open spec fn u32_piece(num: u64, v: u32) -> Seq<FieldV> {
    if v == 0 {
        Seq::empty()
    } else {
        seq![FieldV { num, val: FieldValV::Varint(v as u64) }]
    }
}

/// An embedded message field, always written: presence of the submessage is
/// meaningful whether or not its body is empty.
pub open spec fn msg_piece(num: u64, body: Seq<u8>) -> Seq<FieldV> {
    seq![FieldV { num, val: FieldValV::Bytes(body) }]
}

pub proof fn lemma_enc_bytes_piece(num: u64, b: Seq<u8>)
    ensures
        spec_enc_fields(bytes_piece(num, b)) == if b.len() == 0 {
            Seq::<u8>::empty()
        } else {
            spec_enc_field(FieldV { num, val: FieldValV::Bytes(b) })
        },
{
    if b.len() != 0 {
        lemma_enc_fields_one(FieldV { num, val: FieldValV::Bytes(b) });
    }
}

pub proof fn lemma_enc_u64_piece(num: u64, v: u64)
    ensures
        spec_enc_fields(u64_piece(num, v)) == if v == 0 {
            Seq::<u8>::empty()
        } else {
            spec_enc_field(FieldV { num, val: FieldValV::Varint(v) })
        },
{
    if v != 0 {
        lemma_enc_fields_one(FieldV { num, val: FieldValV::Varint(v) });
    }
}

pub proof fn lemma_enc_u32_piece(num: u64, v: u32)
    ensures
        spec_enc_fields(u32_piece(num, v)) == if v == 0 {
            Seq::<u8>::empty()
        } else {
            spec_enc_field(FieldV { num, val: FieldValV::Varint(v as u64) })
        },
{
    if v != 0 {
        lemma_enc_fields_one(FieldV { num, val: FieldValV::Varint(v as u64) });
    }
}

pub proof fn lemma_enc_msg_piece(num: u64, body: Seq<u8>)
    ensures
        spec_enc_fields(msg_piece(num, body)) == spec_enc_field(
            FieldV { num, val: FieldValV::Bytes(body) },
        ),
{
    lemma_enc_fields_one(FieldV { num, val: FieldValV::Bytes(body) });
}

pub proof fn lemma_fields_wf_concat(a: Seq<FieldV>, b: Seq<FieldV>)
    requires
        fields_wf(a),
        fields_wf(b),
    ensures
        fields_wf(a + b),
{
    assert forall|i: int| 0 <= i < (a + b).len() implies field_wf(#[trigger] (a + b)[i]) by {
        if i < a.len() {
            assert((a + b)[i] == a[i]);
        } else {
            assert((a + b)[i] == b[i - a.len()]);
        }
    }
}

pub proof fn lemma_bytes_piece_wf(num: u64, b: Seq<u8>)
    requires
        1 <= num <= MAX_FIELD_NUM,
        b.len() <= u64::MAX,
    ensures
        fields_wf(bytes_piece(num, b)),
{
    if b.len() != 0 {
        assert(bytes_piece(num, b)[0] == FieldV { num, val: FieldValV::Bytes(b) });
    }
}

pub proof fn lemma_u64_piece_wf(num: u64, v: u64)
    requires
        1 <= num <= MAX_FIELD_NUM,
    ensures
        fields_wf(u64_piece(num, v)),
{
    if v != 0 {
        assert(u64_piece(num, v)[0] == FieldV { num, val: FieldValV::Varint(v) });
    }
}

pub proof fn lemma_u32_piece_wf(num: u64, v: u32)
    requires
        1 <= num <= MAX_FIELD_NUM,
    ensures
        fields_wf(u32_piece(num, v)),
{
    if v != 0 {
        assert(u32_piece(num, v)[0] == FieldV { num, val: FieldValV::Varint(v as u64) });
    }
}

pub proof fn lemma_msg_piece_wf(num: u64, body: Seq<u8>)
    requires
        1 <= num <= MAX_FIELD_NUM,
        body.len() <= u64::MAX,
    ensures
        fields_wf(msg_piece(num, body)),
{
    assert(msg_piece(num, body)[0] == FieldV { num, val: FieldValV::Bytes(body) });
}

/// A varint never takes more than ten bytes.
pub proof fn lemma_varint_len_le(n: u64)
    ensures
        spec_varint(n).len() <= 10,
{
    assert(pow(128, 10) == 0x400000000000000000nat) by {
        reveal_with_fuel(pow, 11);
    }
    lemma_varint_len_pow(n, 10);
}

proof fn lemma_varint_len_pow(n: u64, k: nat)
    requires
        1 <= k,
        (n as int) < pow(128, k),
    ensures
        spec_varint(n).len() <= k,
    decreases k,
{
    if n >= 128 {
        reveal(pow);
        let p = pow(128, (k - 1) as nat);
        assert(pow(128, k) == 128 * p);
        vstd::arithmetic::power::lemma_pow_positive(128, (k - 1) as nat);
        assert(((n / 128) as int) < p) by (nonlinear_arith)
            requires
                (n as int) < 128 * p,
                p >= 1,
        ;
        lemma_varint_len_pow(n / 128, (k - 1) as nat);
    }
}

/// Length of one encoded field: at most twenty bytes of tag and varints,
/// plus the byte-string payload if there is one.
pub proof fn lemma_enc_field_len(f: FieldV)
    requires
        field_wf(f),
    ensures
        spec_enc_field(f).len() <= 20 + match f.val {
            FieldValV::Varint(_) => 0int,
            FieldValV::Bytes(b) => b.len() as int,
        },
{
    match f.val {
        FieldValV::Varint(v) => {
            lemma_varint_len_le((f.num * 8) as u64);
            lemma_varint_len_le(v);
        },
        FieldValV::Bytes(b) => {
            lemma_varint_len_le((f.num * 8 + 2) as u64);
            lemma_varint_len_le(b.len() as u64);
        },
    }
}

/// Compares two byte strings.
pub fn bytes_eq(a: &Vec<u8>, b: &Vec<u8>) -> (r: bool)
    ensures
        r == (a@ == b@),
{
    if a.len() != b.len() {
        return false;
    }
    let mut i: usize = 0;
    while i < a.len()
        invariant
            0 <= i <= a.len(),
            a.len() == b.len(),
            forall|j: int| 0 <= j < i ==> a@[j] == b@[j],
        decreases a.len() - i,
    {
        if a[i] != b[i] {
            return false;
        }
        i = i + 1;
    }
    proof {
        assert(a@ =~= b@);
    }
    true
}

/// Copies a byte string.
pub fn clone_bytes(b: &Vec<u8>) -> (r: Vec<u8>)
    ensures
        r@ == b@,
{
    vstd::slice::slice_to_vec(b.as_slice())
}

// ---------------------------------------------------------------------------
// WireAny
// ---------------------------------------------------------------------------

/// Transaction envelope: a type URL naming the message type, and the encoded message itself.
#[derive(Debug, Clone, PartialEq, Eq)]
pub struct WireAny {
    pub type_url: Vec<u8>,
    pub value: Vec<u8>,
}

#[verifier::ext_equal]
pub struct WireAnyV {
    pub type_url: Seq<u8>,
    pub value: Seq<u8>,
}

impl View for WireAny {
    type V = WireAnyV;

    open spec fn view(&self) -> WireAnyV {
        WireAnyV {
            type_url: self.type_url@,
            value: self.value@,
        }
    }
}

pub open spec fn any_fields(m: WireAnyV) -> Seq<FieldV> {
    bytes_piece(1, m.type_url) + bytes_piece(2, m.value)
}

pub open spec fn spec_enc_any(m: WireAnyV) -> Seq<u8> {
    spec_enc_fields(any_fields(m))
}

pub open spec fn any_default() -> WireAnyV {
    WireAnyV {
        type_url: Seq::empty(),
        value: Seq::empty(),
    }
}

pub open spec fn any_step() -> spec_fn(WireAnyV, FieldV) -> WireAnyV {
    |acc: WireAnyV, f: FieldV|
        match f.val {
            FieldValV::Bytes(b) => {
                if f.num == 1 {
                    WireAnyV {
                        type_url: b,
                        value: acc.value,
                    }
                } else if f.num == 2 {
                    WireAnyV {
                        type_url: acc.type_url,
                        value: b,
                    }
                } else {
                    acc
                }
            },
            FieldValV::Varint(_) => acc,
        }
}

pub open spec fn spec_dec_any(s: Seq<u8>) -> Option<WireAnyV> {
    match spec_parse_fields(s, 0) {
        None => None,
        Some(fs) => Some(spec_fold_fields(fs, any_default(), any_step())),
    }
}

/// Canonical encoding, omitting fields that hold their default value.
pub fn encode_any(m: &WireAny) -> (r: Vec<u8>)
    ensures
        r@ == spec_enc_any(m@),
{
    let mut out: Vec<u8> = Vec::new();
    if m.type_url.len() > 0 {
        encode_bytes_field(&mut out, 1, &m.type_url);
    }
    if m.value.len() > 0 {
        encode_bytes_field(&mut out, 2, &m.value);
    }
    proof {
        let mv = m@;
        let p1 = bytes_piece(1, mv.type_url);
        let p2 = bytes_piece(2, mv.value);
        lemma_enc_fields_concat(p1, p2);
        lemma_enc_bytes_piece(1, mv.type_url);
        lemma_enc_bytes_piece(2, mv.value);
        assert(out@ =~= spec_enc_any(mv));
    }
    out
}

/// Decodes, exactly as the spec decoder does.
pub fn decode_any(buf: &Vec<u8>) -> (r: Option<WireAny>)
    ensures
        match r {
            Some(m) => spec_dec_any(buf@) == Some(m@),
            None => spec_dec_any(buf@) is None,
        },
{
    let fs = match decode_fields_from(buf, 0) {
        None => {
            return None;
        },
        Some(fs) => fs,
    };
    let ghost fsv = fs.deep_view();
    let mut m = WireAny {
        type_url: Vec::new(),
        value: Vec::new(),
    };
    assert(m@ =~= any_default());
    let mut i: usize = 0;
    while i < fs.len()
        invariant
            0 <= i <= fs.len(),
            fsv == fs.deep_view(),
            m@ == spec_fold_fields(fsv.take(i as int), any_default(), any_step()),
        decreases fs.len() - i,
    {
        proof {
            lemma_fold_fields_take_step(fsv, i as int, any_default(), any_step());
        }
        let f = &fs[i];
        match &f.val {
            FieldVal::Bytes(b) => {
                if f.num == 1 {
                    m.type_url = clone_bytes(b);
                } else if f.num == 2 {
                    m.value = clone_bytes(b);
                }
            },
            FieldVal::Varint(_) => {},
        }
        assert(m@ =~= spec_fold_fields(fsv.take(i + 1), any_default(), any_step()));
        i = i + 1;
    }
    proof {
        assert(fsv.take(fs.len() as int) =~= fsv);
    }
    Some(m)
}

/// Decoding inverts encoding.
pub proof fn lemma_any_round_trip(m: WireAnyV)
    requires
        m.type_url.len() <= u64::MAX,
        m.value.len() <= u64::MAX,
    ensures
        spec_dec_any(spec_enc_any(m)) == Some(m),
{
    let fs = any_fields(m);
    let p1 = bytes_piece(1, m.type_url);
    let p2 = bytes_piece(2, m.value);
    lemma_bytes_piece_wf(1, m.type_url);
    lemma_bytes_piece_wf(2, m.value);
    lemma_fields_wf_concat(p1, p2);
    assert(fields_wf(fs));
    lemma_parse_enc_fields(Seq::empty(), fs);
    assert(Seq::<u8>::empty() + spec_enc_fields(fs) =~= spec_enc_fields(fs));
    let d = any_default();
    let st = any_step();
    lemma_fold_fields_concat(p1, p2, d, st);
    let a1 = spec_fold_fields(p1, d, st);
    let a2 = spec_fold_fields(p2, a1, st);
    if m.type_url.len() > 0 {
        lemma_fold_fields_one(FieldV { num: 1, val: FieldValV::Bytes(m.type_url) }, d, st);
    }
    if m.value.len() > 0 {
        lemma_fold_fields_one(FieldV { num: 2, val: FieldValV::Bytes(m.value) }, a1, st);
    }
    assert(a2 =~= m);
}

} // verus!
