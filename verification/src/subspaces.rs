//! Subspaces module: typed messages, their wire codecs, and the bindings.
//!
//! Each execute operation pairs a request message with a response message
//! and a type URL; each query operation additionally carries its fixed
//! endpoint path.  Field numbers follow the chain's published schema.

use crate::wire::{
    bytes_piece, clone_bytes, decode_fields_from, encode_bytes_field, encode_varint_field,
    fields_wf, lemma_bytes_piece_wf, lemma_enc_bytes_piece, lemma_enc_fields_concat,
    lemma_enc_msg_piece, lemma_enc_u64_piece, lemma_fields_wf_concat, lemma_fold_fields_concat,
    lemma_fold_fields_one, lemma_msg_piece_wf, lemma_u64_piece_wf, lemma_u32_piece_wf, lemma_enc_u32_piece, u32_piece, lemma_enc_field_len, MAX_TEXT_LEN,
    lemma_fold_fields_take_step, lemma_parse_enc_fields, msg_piece, spec_enc_field,
    spec_enc_fields, spec_fold_fields, spec_parse_fields, u64_piece, encode_any,
    lemma_any_round_trip, Field, FieldV, FieldVal, FieldValV, WireAny, WireAnyV,
};
use crate::runner::{
    apply_create_subspace, apply_delete_subspace, apply_edit_subspace, find_subspace,
    has_account, lemma_find_subspace_mem, spec_commit, DesmosTestApp, Error, ExecError,
    QueryError, SigningAccount,
};
use vstd::prelude::*;
use vstd::string::StringSliceAdditionalSpecFns;

verus! {

// ---------------------------------------------------------------------------
// MsgCreateSubspace
// ---------------------------------------------------------------------------

/// Request to create a subspace.  An empty `owner` asks the chain to make
/// the creator the owner.
#[derive(Debug, Clone, PartialEq, Eq)]
pub struct MsgCreateSubspace {
    pub name: Vec<u8>,
    pub description: Vec<u8>,
    pub owner: Vec<u8>,
    pub creator: Vec<u8>,
}

#[verifier::ext_equal]
pub struct MsgCreateSubspaceV {
    pub name: Seq<u8>,
    pub description: Seq<u8>,
    pub owner: Seq<u8>,
    pub creator: Seq<u8>,
}

impl View for MsgCreateSubspace {
    type V = MsgCreateSubspaceV;

    open spec fn view(&self) -> MsgCreateSubspaceV {
        MsgCreateSubspaceV {
            name: self.name@,
            description: self.description@,
            owner: self.owner@,
            creator: self.creator@,
        }
    }
}

pub open spec fn create_subspace_fields(m: MsgCreateSubspaceV) -> Seq<FieldV> {
    bytes_piece(1, m.name) + bytes_piece(2, m.description) + bytes_piece(3, m.owner) + bytes_piece(
        4,
        m.creator,
    )
}

pub open spec fn spec_enc_create_subspace(m: MsgCreateSubspaceV) -> Seq<u8> {
    spec_enc_fields(create_subspace_fields(m))
}

pub open spec fn create_subspace_default() -> MsgCreateSubspaceV {
    MsgCreateSubspaceV {
        name: Seq::empty(),
        description: Seq::empty(),
        owner: Seq::empty(),
        creator: Seq::empty(),
    }
}

pub open spec fn create_subspace_step() -> spec_fn(MsgCreateSubspaceV, FieldV) -> MsgCreateSubspaceV {
    |acc: MsgCreateSubspaceV, f: FieldV|
        match f.val {
            FieldValV::Bytes(b) => if f.num == 1 {
                MsgCreateSubspaceV {
                    name: b,
                    description: acc.description,
                    owner: acc.owner,
                    creator: acc.creator,
                }
            } else if f.num == 2 {
                MsgCreateSubspaceV {
                    name: acc.name,
                    description: b,
                    owner: acc.owner,
                    creator: acc.creator,
                }
            } else if f.num == 3 {
                MsgCreateSubspaceV {
                    name: acc.name,
                    description: acc.description,
                    owner: b,
                    creator: acc.creator,
                }
            } else if f.num == 4 {
                MsgCreateSubspaceV {
                    name: acc.name,
                    description: acc.description,
                    owner: acc.owner,
                    creator: b,
                }
            } else {
                acc
            },
            FieldValV::Varint(_) => acc,
        }
}

pub open spec fn spec_dec_create_subspace(s: Seq<u8>) -> Option<MsgCreateSubspaceV> {
    match spec_parse_fields(s, 0) {
        None => None,
        Some(fs) => Some(
            spec_fold_fields(fs, create_subspace_default(), create_subspace_step()),
        ),
    }
}

/// Canonical encoding of a create-subspace request.
pub fn encode_create_subspace(m: &MsgCreateSubspace) -> (r: Vec<u8>)
    ensures
        r@ == spec_enc_create_subspace(m@),
{
    let mut out: Vec<u8> = Vec::new();
    if m.name.len() > 0 {
        encode_bytes_field(&mut out, 1, &m.name);
    }
    if m.description.len() > 0 {
        encode_bytes_field(&mut out, 2, &m.description);
    }
    if m.owner.len() > 0 {
        encode_bytes_field(&mut out, 3, &m.owner);
    }
    if m.creator.len() > 0 {
        encode_bytes_field(&mut out, 4, &m.creator);
    }
    proof {
        let mv = m@;
        let p1 = bytes_piece(1, mv.name);
        let p2 = bytes_piece(2, mv.description);
        let p3 = bytes_piece(3, mv.owner);
        let p4 = bytes_piece(4, mv.creator);
        lemma_enc_fields_concat(p1 + p2 + p3, p4);
        lemma_enc_fields_concat(p1 + p2, p3);
        lemma_enc_fields_concat(p1, p2);
        lemma_enc_bytes_piece(1, mv.name);
        lemma_enc_bytes_piece(2, mv.description);
        lemma_enc_bytes_piece(3, mv.owner);
        lemma_enc_bytes_piece(4, mv.creator);
        assert(out@ =~= spec_enc_create_subspace(mv));
    }
    out
}

/// Decodes a create-subspace request, exactly as the spec decoder does.
pub fn decode_create_subspace(buf: &Vec<u8>) -> (r: Option<MsgCreateSubspace>)
    ensures
        match r {
            Some(m) => spec_dec_create_subspace(buf@) == Some(m@),
            None => spec_dec_create_subspace(buf@) is None,
        },
{
    let fs = match decode_fields_from(buf, 0) {
        None => {
            return None;
        },
        Some(fs) => fs,
    };
    let ghost fsv = fs.deep_view();
    let mut m = MsgCreateSubspace {
        name: Vec::new(),
        description: Vec::new(),
        owner: Vec::new(),
        creator: Vec::new(),
    };
    assert(m@ =~= create_subspace_default());
    let mut i: usize = 0;
    while i < fs.len()
        invariant
            0 <= i <= fs.len(),
            fsv == fs.deep_view(),
            m@ == spec_fold_fields(
                fsv.take(i as int),
                create_subspace_default(),
                create_subspace_step(),
            ),
        decreases fs.len() - i,
    {
        proof {
            lemma_fold_fields_take_step(
                fsv,
                i as int,
                create_subspace_default(),
                create_subspace_step(),
            );
        }
        let f = &fs[i];
        match &f.val {
            FieldVal::Bytes(b) => {
                if f.num == 1 {
                    m.name = clone_bytes(b);
                } else if f.num == 2 {
                    m.description = clone_bytes(b);
                } else if f.num == 3 {
                    m.owner = clone_bytes(b);
                } else if f.num == 4 {
                    m.creator = clone_bytes(b);
                }
            },
            FieldVal::Varint(_) => {},
        }
        assert(m@ =~= spec_fold_fields(
            fsv.take(i + 1),
            create_subspace_default(),
            create_subspace_step(),
        ));
        i = i + 1;
    }
    proof {
        assert(fsv.take(fs.len() as int) =~= fsv);
    }
    Some(m)
}

/// Decoding inverts encoding for every create-subspace request.
pub proof fn lemma_create_subspace_round_trip(m: MsgCreateSubspaceV)
    requires
        m.name.len() <= u64::MAX,
        m.description.len() <= u64::MAX,
        m.owner.len() <= u64::MAX,
        m.creator.len() <= u64::MAX,
    ensures
        spec_dec_create_subspace(spec_enc_create_subspace(m)) == Some(m),
{
    let fs = create_subspace_fields(m);
    let p1 = bytes_piece(1, m.name);
    let p2 = bytes_piece(2, m.description);
    let p3 = bytes_piece(3, m.owner);
    let p4 = bytes_piece(4, m.creator);
    lemma_bytes_piece_wf(1, m.name);
    lemma_bytes_piece_wf(2, m.description);
    lemma_bytes_piece_wf(3, m.owner);
    lemma_bytes_piece_wf(4, m.creator);
    lemma_fields_wf_concat(p1, p2);
    lemma_fields_wf_concat(p1 + p2, p3);
    lemma_fields_wf_concat(p1 + p2 + p3, p4);
    assert(fields_wf(fs));
    lemma_parse_enc_fields(Seq::empty(), fs);
    assert(Seq::<u8>::empty() + spec_enc_fields(fs) =~= spec_enc_fields(fs));
    let d = create_subspace_default();
    let st = create_subspace_step();
    lemma_fold_fields_concat(p1 + p2 + p3, p4, d, st);
    lemma_fold_fields_concat(p1 + p2, p3, d, st);
    lemma_fold_fields_concat(p1, p2, d, st);
    let a1 = spec_fold_fields(p1, d, st);
    let a2 = spec_fold_fields(p2, a1, st);
    let a3 = spec_fold_fields(p3, a2, st);
    let a4 = spec_fold_fields(p4, a3, st);
    if m.name.len() > 0 {
        lemma_fold_fields_one(FieldV { num: 1, val: FieldValV::Bytes(m.name) }, d, st);
    }
    if m.description.len() > 0 {
        lemma_fold_fields_one(FieldV { num: 2, val: FieldValV::Bytes(m.description) }, a1, st);
    }
    if m.owner.len() > 0 {
        lemma_fold_fields_one(FieldV { num: 3, val: FieldValV::Bytes(m.owner) }, a2, st);
    }
    if m.creator.len() > 0 {
        lemma_fold_fields_one(FieldV { num: 4, val: FieldValV::Bytes(m.creator) }, a3, st);
    }
    assert(a4 =~= m);
}

// ---------------------------------------------------------------------------
// MsgCreateSubspaceResponse
// ---------------------------------------------------------------------------

/// Response to a create-subspace request, carrying the new subspace id.
#[derive(Debug, Clone, PartialEq, Eq)]
pub struct MsgCreateSubspaceResponse {
    pub subspace_id: u64,
}

#[verifier::ext_equal]
pub struct MsgCreateSubspaceResponseV {
    pub subspace_id: u64,
}

impl View for MsgCreateSubspaceResponse {
    type V = MsgCreateSubspaceResponseV;

    open spec fn view(&self) -> MsgCreateSubspaceResponseV {
        MsgCreateSubspaceResponseV {
            subspace_id: self.subspace_id,
        }
    }
}

pub open spec fn create_subspace_response_fields(m: MsgCreateSubspaceResponseV) -> Seq<FieldV> {
    u64_piece(1, m.subspace_id)
}

pub open spec fn spec_enc_create_subspace_response(m: MsgCreateSubspaceResponseV) -> Seq<u8> {
    spec_enc_fields(create_subspace_response_fields(m))
}

pub open spec fn create_subspace_response_default() -> MsgCreateSubspaceResponseV {
    MsgCreateSubspaceResponseV {
        subspace_id: 0,
    }
}

pub open spec fn create_subspace_response_step() -> spec_fn(MsgCreateSubspaceResponseV, FieldV) -> MsgCreateSubspaceResponseV {
    |acc: MsgCreateSubspaceResponseV, f: FieldV|
        match f.val {
            FieldValV::Bytes(_) => acc,
            FieldValV::Varint(v) => {
                if f.num == 1 {
                    MsgCreateSubspaceResponseV {
                        subspace_id: v,
                    }
                } else {
                    acc
                }
            },
        }
}

pub open spec fn spec_dec_create_subspace_response(s: Seq<u8>) -> Option<MsgCreateSubspaceResponseV> {
    match spec_parse_fields(s, 0) {
        None => None,
        Some(fs) => Some(spec_fold_fields(fs, create_subspace_response_default(), create_subspace_response_step())),
    }
}

/// Canonical encoding, omitting fields that hold their default value.
pub fn encode_create_subspace_response(m: &MsgCreateSubspaceResponse) -> (r: Vec<u8>)
    ensures
        r@ == spec_enc_create_subspace_response(m@),
{
    let mut out: Vec<u8> = Vec::new();
    if m.subspace_id != 0 {
        encode_varint_field(&mut out, 1, m.subspace_id);
    }
    proof {
        let mv = m@;
        let p1 = u64_piece(1, mv.subspace_id);
        lemma_enc_u64_piece(1, mv.subspace_id);
        assert(out@ =~= spec_enc_create_subspace_response(mv));
    }
    out
}

/// Decodes, exactly as the spec decoder does.
pub fn decode_create_subspace_response(buf: &Vec<u8>) -> (r: Option<MsgCreateSubspaceResponse>)
    ensures
        match r {
            Some(m) => spec_dec_create_subspace_response(buf@) == Some(m@),
            None => spec_dec_create_subspace_response(buf@) is None,
        },
{
    let fs = match decode_fields_from(buf, 0) {
        None => {
            return None;
        },
        Some(fs) => fs,
    };
    let ghost fsv = fs.deep_view();
    let mut m = MsgCreateSubspaceResponse {
        subspace_id: 0,
    };
    assert(m@ =~= create_subspace_response_default());
    let mut i: usize = 0;
    while i < fs.len()
        invariant
            0 <= i <= fs.len(),
            fsv == fs.deep_view(),
            m@ == spec_fold_fields(fsv.take(i as int), create_subspace_response_default(), create_subspace_response_step()),
        decreases fs.len() - i,
    {
        proof {
            lemma_fold_fields_take_step(fsv, i as int, create_subspace_response_default(), create_subspace_response_step());
        }
        let f = &fs[i];
        match &f.val {
            FieldVal::Bytes(_) => {},
            FieldVal::Varint(v) => {
                if f.num == 1 {
                    m.subspace_id = *v;
                }
            },
        }
        assert(m@ =~= spec_fold_fields(fsv.take(i + 1), create_subspace_response_default(), create_subspace_response_step()));
        i = i + 1;
    }
    proof {
        assert(fsv.take(fs.len() as int) =~= fsv);
    }
    Some(m)
}

/// Decoding inverts encoding.
pub proof fn lemma_create_subspace_response_round_trip(m: MsgCreateSubspaceResponseV)
    ensures
        spec_dec_create_subspace_response(spec_enc_create_subspace_response(m)) == Some(m),
{
    let fs = create_subspace_response_fields(m);
    let p1 = u64_piece(1, m.subspace_id);
    lemma_u64_piece_wf(1, m.subspace_id);
    assert(fields_wf(fs));
    lemma_parse_enc_fields(Seq::empty(), fs);
    assert(Seq::<u8>::empty() + spec_enc_fields(fs) =~= spec_enc_fields(fs));
    let d = create_subspace_response_default();
    let st = create_subspace_response_step();
    let a1 = spec_fold_fields(p1, d, st);
    if m.subspace_id != 0 {
        lemma_fold_fields_one(FieldV { num: 1, val: FieldValV::Varint(m.subspace_id) }, d, st);
    }
    assert(a1 =~= m);
}

// ---------------------------------------------------------------------------
// MsgEditSubspace
// ---------------------------------------------------------------------------

/// Request to edit an existing subspace.
#[derive(Debug, Clone, PartialEq, Eq)]
pub struct MsgEditSubspace {
    pub subspace_id: u64,
    pub name: Vec<u8>,
    pub description: Vec<u8>,
    pub owner: Vec<u8>,
    pub signer: Vec<u8>,
}

#[verifier::ext_equal]
pub struct MsgEditSubspaceV {
    pub subspace_id: u64,
    pub name: Seq<u8>,
    pub description: Seq<u8>,
    pub owner: Seq<u8>,
    pub signer: Seq<u8>,
}

impl View for MsgEditSubspace {
    type V = MsgEditSubspaceV;

    open spec fn view(&self) -> MsgEditSubspaceV {
        MsgEditSubspaceV {
            subspace_id: self.subspace_id,
            name: self.name@,
            description: self.description@,
            owner: self.owner@,
            signer: self.signer@,
        }
    }
}

pub open spec fn edit_subspace_fields(m: MsgEditSubspaceV) -> Seq<FieldV> {
    u64_piece(1, m.subspace_id) + bytes_piece(2, m.name) + bytes_piece(3, m.description) + bytes_piece(4, m.owner) + bytes_piece(5, m.signer)
}

pub open spec fn spec_enc_edit_subspace(m: MsgEditSubspaceV) -> Seq<u8> {
    spec_enc_fields(edit_subspace_fields(m))
}

pub open spec fn edit_subspace_default() -> MsgEditSubspaceV {
    MsgEditSubspaceV {
        subspace_id: 0,
        name: Seq::empty(),
        description: Seq::empty(),
        owner: Seq::empty(),
        signer: Seq::empty(),
    }
}

pub open spec fn edit_subspace_step() -> spec_fn(MsgEditSubspaceV, FieldV) -> MsgEditSubspaceV {
    |acc: MsgEditSubspaceV, f: FieldV|
        match f.val {
            FieldValV::Bytes(b) => {
                if f.num == 2 {
                    MsgEditSubspaceV {
                        subspace_id: acc.subspace_id,
                        name: b,
                        description: acc.description,
                        owner: acc.owner,
                        signer: acc.signer,
                    }
                } else if f.num == 3 {
                    MsgEditSubspaceV {
                        subspace_id: acc.subspace_id,
                        name: acc.name,
                        description: b,
                        owner: acc.owner,
                        signer: acc.signer,
                    }
                } else if f.num == 4 {
                    MsgEditSubspaceV {
                        subspace_id: acc.subspace_id,
                        name: acc.name,
                        description: acc.description,
                        owner: b,
                        signer: acc.signer,
                    }
                } else if f.num == 5 {
                    MsgEditSubspaceV {
                        subspace_id: acc.subspace_id,
                        name: acc.name,
                        description: acc.description,
                        owner: acc.owner,
                        signer: b,
                    }
                } else {
                    acc
                }
            },
            FieldValV::Varint(v) => {
                if f.num == 1 {
                    MsgEditSubspaceV {
                        subspace_id: v,
                        name: acc.name,
                        description: acc.description,
                        owner: acc.owner,
                        signer: acc.signer,
                    }
                } else {
                    acc
                }
            },
        }
}

pub open spec fn spec_dec_edit_subspace(s: Seq<u8>) -> Option<MsgEditSubspaceV> {
    match spec_parse_fields(s, 0) {
        None => None,
        Some(fs) => Some(spec_fold_fields(fs, edit_subspace_default(), edit_subspace_step())),
    }
}

/// Canonical encoding, omitting fields that hold their default value.
pub fn encode_edit_subspace(m: &MsgEditSubspace) -> (r: Vec<u8>)
    ensures
        r@ == spec_enc_edit_subspace(m@),
{
    let mut out: Vec<u8> = Vec::new();
    if m.subspace_id != 0 {
        encode_varint_field(&mut out, 1, m.subspace_id);
    }
    if m.name.len() > 0 {
        encode_bytes_field(&mut out, 2, &m.name);
    }
    if m.description.len() > 0 {
        encode_bytes_field(&mut out, 3, &m.description);
    }
    if m.owner.len() > 0 {
        encode_bytes_field(&mut out, 4, &m.owner);
    }
    if m.signer.len() > 0 {
        encode_bytes_field(&mut out, 5, &m.signer);
    }
    proof {
        let mv = m@;
        let p1 = u64_piece(1, mv.subspace_id);
        let p2 = bytes_piece(2, mv.name);
        let p3 = bytes_piece(3, mv.description);
        let p4 = bytes_piece(4, mv.owner);
        let p5 = bytes_piece(5, mv.signer);
        lemma_enc_fields_concat(p1 + p2 + p3 + p4, p5);
        lemma_enc_fields_concat(p1 + p2 + p3, p4);
        lemma_enc_fields_concat(p1 + p2, p3);
        lemma_enc_fields_concat(p1, p2);
        lemma_enc_u64_piece(1, mv.subspace_id);
        lemma_enc_bytes_piece(2, mv.name);
        lemma_enc_bytes_piece(3, mv.description);
        lemma_enc_bytes_piece(4, mv.owner);
        lemma_enc_bytes_piece(5, mv.signer);
        assert(out@ =~= spec_enc_edit_subspace(mv));
    }
    out
}

/// Decodes, exactly as the spec decoder does.
pub fn decode_edit_subspace(buf: &Vec<u8>) -> (r: Option<MsgEditSubspace>)
    ensures
        match r {
            Some(m) => spec_dec_edit_subspace(buf@) == Some(m@),
            None => spec_dec_edit_subspace(buf@) is None,
        },
{
    let fs = match decode_fields_from(buf, 0) {
        None => {
            return None;
        },
        Some(fs) => fs,
    };
    let ghost fsv = fs.deep_view();
    let mut m = MsgEditSubspace {
        subspace_id: 0,
        name: Vec::new(),
        description: Vec::new(),
        owner: Vec::new(),
        signer: Vec::new(),
    };
    assert(m@ =~= edit_subspace_default());
    let mut i: usize = 0;
    while i < fs.len()
        invariant
            0 <= i <= fs.len(),
            fsv == fs.deep_view(),
            m@ == spec_fold_fields(fsv.take(i as int), edit_subspace_default(), edit_subspace_step()),
        decreases fs.len() - i,
    {
        proof {
            lemma_fold_fields_take_step(fsv, i as int, edit_subspace_default(), edit_subspace_step());
        }
        let f = &fs[i];
        match &f.val {
            FieldVal::Bytes(b) => {
                if f.num == 2 {
                    m.name = clone_bytes(b);
                } else if f.num == 3 {
                    m.description = clone_bytes(b);
                } else if f.num == 4 {
                    m.owner = clone_bytes(b);
                } else if f.num == 5 {
                    m.signer = clone_bytes(b);
                }
            },
            FieldVal::Varint(v) => {
                if f.num == 1 {
                    m.subspace_id = *v;
                }
            },
        }
        assert(m@ =~= spec_fold_fields(fsv.take(i + 1), edit_subspace_default(), edit_subspace_step()));
        i = i + 1;
    }
    proof {
        assert(fsv.take(fs.len() as int) =~= fsv);
    }
    Some(m)
}

/// Decoding inverts encoding.
pub proof fn lemma_edit_subspace_round_trip(m: MsgEditSubspaceV)
    requires
        m.name.len() <= u64::MAX,
        m.description.len() <= u64::MAX,
        m.owner.len() <= u64::MAX,
        m.signer.len() <= u64::MAX,
    ensures
        spec_dec_edit_subspace(spec_enc_edit_subspace(m)) == Some(m),
{
    let fs = edit_subspace_fields(m);
    let p1 = u64_piece(1, m.subspace_id);
    let p2 = bytes_piece(2, m.name);
    let p3 = bytes_piece(3, m.description);
    let p4 = bytes_piece(4, m.owner);
    let p5 = bytes_piece(5, m.signer);
    lemma_u64_piece_wf(1, m.subspace_id);
    lemma_bytes_piece_wf(2, m.name);
    lemma_bytes_piece_wf(3, m.description);
    lemma_bytes_piece_wf(4, m.owner);
    lemma_bytes_piece_wf(5, m.signer);
    lemma_fields_wf_concat(p1, p2);
    lemma_fields_wf_concat(p1 + p2, p3);
    lemma_fields_wf_concat(p1 + p2 + p3, p4);
    lemma_fields_wf_concat(p1 + p2 + p3 + p4, p5);
    assert(fields_wf(fs));
    lemma_parse_enc_fields(Seq::empty(), fs);
    assert(Seq::<u8>::empty() + spec_enc_fields(fs) =~= spec_enc_fields(fs));
    let d = edit_subspace_default();
    let st = edit_subspace_step();
    lemma_fold_fields_concat(p1 + p2 + p3 + p4, p5, d, st);
    lemma_fold_fields_concat(p1 + p2 + p3, p4, d, st);
    lemma_fold_fields_concat(p1 + p2, p3, d, st);
    lemma_fold_fields_concat(p1, p2, d, st);
    let a1 = spec_fold_fields(p1, d, st);
    let a2 = spec_fold_fields(p2, a1, st);
    let a3 = spec_fold_fields(p3, a2, st);
    let a4 = spec_fold_fields(p4, a3, st);
    let a5 = spec_fold_fields(p5, a4, st);
    if m.subspace_id != 0 {
        lemma_fold_fields_one(FieldV { num: 1, val: FieldValV::Varint(m.subspace_id) }, d, st);
    }
    if m.name.len() > 0 {
        lemma_fold_fields_one(FieldV { num: 2, val: FieldValV::Bytes(m.name) }, a1, st);
    }
    if m.description.len() > 0 {
        lemma_fold_fields_one(FieldV { num: 3, val: FieldValV::Bytes(m.description) }, a2, st);
    }
    if m.owner.len() > 0 {
        lemma_fold_fields_one(FieldV { num: 4, val: FieldValV::Bytes(m.owner) }, a3, st);
    }
    if m.signer.len() > 0 {
        lemma_fold_fields_one(FieldV { num: 5, val: FieldValV::Bytes(m.signer) }, a4, st);
    }
    assert(a5 =~= m);
}

// ---------------------------------------------------------------------------
// MsgDeleteSubspace
// ---------------------------------------------------------------------------

/// Request to delete an existing subspace and the posts in it.
#[derive(Debug, Clone, PartialEq, Eq)]
pub struct MsgDeleteSubspace {
    pub subspace_id: u64,
    pub signer: Vec<u8>,
}

#[verifier::ext_equal]
pub struct MsgDeleteSubspaceV {
    pub subspace_id: u64,
    pub signer: Seq<u8>,
}

impl View for MsgDeleteSubspace {
    type V = MsgDeleteSubspaceV;

    open spec fn view(&self) -> MsgDeleteSubspaceV {
        MsgDeleteSubspaceV {
            subspace_id: self.subspace_id,
            signer: self.signer@,
        }
    }
}

pub open spec fn delete_subspace_fields(m: MsgDeleteSubspaceV) -> Seq<FieldV> {
    u64_piece(1, m.subspace_id) + bytes_piece(2, m.signer)
}

pub open spec fn spec_enc_delete_subspace(m: MsgDeleteSubspaceV) -> Seq<u8> {
    spec_enc_fields(delete_subspace_fields(m))
}

pub open spec fn delete_subspace_default() -> MsgDeleteSubspaceV {
    MsgDeleteSubspaceV {
        subspace_id: 0,
        signer: Seq::empty(),
    }
}

pub open spec fn delete_subspace_step() -> spec_fn(MsgDeleteSubspaceV, FieldV) -> MsgDeleteSubspaceV {
    |acc: MsgDeleteSubspaceV, f: FieldV|
        match f.val {
            FieldValV::Bytes(b) => {
                if f.num == 2 {
                    MsgDeleteSubspaceV {
                        subspace_id: acc.subspace_id,
                        signer: b,
                    }
                } else {
                    acc
                }
            },
            FieldValV::Varint(v) => {
                if f.num == 1 {
                    MsgDeleteSubspaceV {
                        subspace_id: v,
                        signer: acc.signer,
                    }
                } else {
                    acc
                }
            },
        }
}

pub open spec fn spec_dec_delete_subspace(s: Seq<u8>) -> Option<MsgDeleteSubspaceV> {
    match spec_parse_fields(s, 0) {
        None => None,
        Some(fs) => Some(spec_fold_fields(fs, delete_subspace_default(), delete_subspace_step())),
    }
}

/// Canonical encoding, omitting fields that hold their default value.
pub fn encode_delete_subspace(m: &MsgDeleteSubspace) -> (r: Vec<u8>)
    ensures
        r@ == spec_enc_delete_subspace(m@),
{
    let mut out: Vec<u8> = Vec::new();
    if m.subspace_id != 0 {
        encode_varint_field(&mut out, 1, m.subspace_id);
    }
    if m.signer.len() > 0 {
        encode_bytes_field(&mut out, 2, &m.signer);
    }
    proof {
        let mv = m@;
        let p1 = u64_piece(1, mv.subspace_id);
        let p2 = bytes_piece(2, mv.signer);
        lemma_enc_fields_concat(p1, p2);
        lemma_enc_u64_piece(1, mv.subspace_id);
        lemma_enc_bytes_piece(2, mv.signer);
        assert(out@ =~= spec_enc_delete_subspace(mv));
    }
    out
}

/// Decodes, exactly as the spec decoder does.
pub fn decode_delete_subspace(buf: &Vec<u8>) -> (r: Option<MsgDeleteSubspace>)
    ensures
        match r {
            Some(m) => spec_dec_delete_subspace(buf@) == Some(m@),
            None => spec_dec_delete_subspace(buf@) is None,
        },
{
    let fs = match decode_fields_from(buf, 0) {
        None => {
            return None;
        },
        Some(fs) => fs,
    };
    let ghost fsv = fs.deep_view();
    let mut m = MsgDeleteSubspace {
        subspace_id: 0,
        signer: Vec::new(),
    };
    assert(m@ =~= delete_subspace_default());
    let mut i: usize = 0;
    while i < fs.len()
        invariant
            0 <= i <= fs.len(),
            fsv == fs.deep_view(),
            m@ == spec_fold_fields(fsv.take(i as int), delete_subspace_default(), delete_subspace_step()),
        decreases fs.len() - i,
    {
        proof {
            lemma_fold_fields_take_step(fsv, i as int, delete_subspace_default(), delete_subspace_step());
        }
        let f = &fs[i];
        match &f.val {
            FieldVal::Bytes(b) => {
                if f.num == 2 {
                    m.signer = clone_bytes(b);
                }
            },
            FieldVal::Varint(v) => {
                if f.num == 1 {
                    m.subspace_id = *v;
                }
            },
        }
        assert(m@ =~= spec_fold_fields(fsv.take(i + 1), delete_subspace_default(), delete_subspace_step()));
        i = i + 1;
    }
    proof {
        assert(fsv.take(fs.len() as int) =~= fsv);
    }
    Some(m)
}

/// Decoding inverts encoding.
pub proof fn lemma_delete_subspace_round_trip(m: MsgDeleteSubspaceV)
    requires
        m.signer.len() <= u64::MAX,
    ensures
        spec_dec_delete_subspace(spec_enc_delete_subspace(m)) == Some(m),
{
    let fs = delete_subspace_fields(m);
    let p1 = u64_piece(1, m.subspace_id);
    let p2 = bytes_piece(2, m.signer);
    lemma_u64_piece_wf(1, m.subspace_id);
    lemma_bytes_piece_wf(2, m.signer);
    lemma_fields_wf_concat(p1, p2);
    assert(fields_wf(fs));
    lemma_parse_enc_fields(Seq::empty(), fs);
    assert(Seq::<u8>::empty() + spec_enc_fields(fs) =~= spec_enc_fields(fs));
    let d = delete_subspace_default();
    let st = delete_subspace_step();
    lemma_fold_fields_concat(p1, p2, d, st);
    let a1 = spec_fold_fields(p1, d, st);
    let a2 = spec_fold_fields(p2, a1, st);
    if m.subspace_id != 0 {
        lemma_fold_fields_one(FieldV { num: 1, val: FieldValV::Varint(m.subspace_id) }, d, st);
    }
    if m.signer.len() > 0 {
        lemma_fold_fields_one(FieldV { num: 2, val: FieldValV::Bytes(m.signer) }, a1, st);
    }
    assert(a2 =~= m);
}

// ---------------------------------------------------------------------------
// Subspace
// ---------------------------------------------------------------------------

/// A stored subspace.
#[derive(Debug, Clone, PartialEq, Eq)]
pub struct Subspace {
    pub id: u64,
    pub name: Vec<u8>,
    pub description: Vec<u8>,
    pub owner: Vec<u8>,
    pub creator: Vec<u8>,
}

#[verifier::ext_equal]
pub struct SubspaceV {
    pub id: u64,
    pub name: Seq<u8>,
    pub description: Seq<u8>,
    pub owner: Seq<u8>,
    pub creator: Seq<u8>,
}

impl View for Subspace {
    type V = SubspaceV;

    open spec fn view(&self) -> SubspaceV {
        SubspaceV {
            id: self.id,
            name: self.name@,
            description: self.description@,
            owner: self.owner@,
            creator: self.creator@,
        }
    }
}

pub open spec fn subspace_fields(m: SubspaceV) -> Seq<FieldV> {
    u64_piece(1, m.id) + bytes_piece(2, m.name) + bytes_piece(3, m.description) + bytes_piece(5, m.owner) + bytes_piece(6, m.creator)
}

pub open spec fn spec_enc_subspace(m: SubspaceV) -> Seq<u8> {
    spec_enc_fields(subspace_fields(m))
}

pub open spec fn subspace_default() -> SubspaceV {
    SubspaceV {
        id: 0,
        name: Seq::empty(),
        description: Seq::empty(),
        owner: Seq::empty(),
        creator: Seq::empty(),
    }
}

pub open spec fn subspace_step() -> spec_fn(SubspaceV, FieldV) -> SubspaceV {
    |acc: SubspaceV, f: FieldV|
        match f.val {
            FieldValV::Bytes(b) => {
                if f.num == 2 {
                    SubspaceV {
                        id: acc.id,
                        name: b,
                        description: acc.description,
                        owner: acc.owner,
                        creator: acc.creator,
                    }
                } else if f.num == 3 {
                    SubspaceV {
                        id: acc.id,
                        name: acc.name,
                        description: b,
                        owner: acc.owner,
                        creator: acc.creator,
                    }
                } else if f.num == 5 {
                    SubspaceV {
                        id: acc.id,
                        name: acc.name,
                        description: acc.description,
                        owner: b,
                        creator: acc.creator,
                    }
                } else if f.num == 6 {
                    SubspaceV {
                        id: acc.id,
                        name: acc.name,
                        description: acc.description,
                        owner: acc.owner,
                        creator: b,
                    }
                } else {
                    acc
                }
            },
            FieldValV::Varint(v) => {
                if f.num == 1 {
                    SubspaceV {
                        id: v,
                        name: acc.name,
                        description: acc.description,
                        owner: acc.owner,
                        creator: acc.creator,
                    }
                } else {
                    acc
                }
            },
        }
}

pub open spec fn spec_dec_subspace(s: Seq<u8>) -> Option<SubspaceV> {
    match spec_parse_fields(s, 0) {
        None => None,
        Some(fs) => Some(spec_fold_fields(fs, subspace_default(), subspace_step())),
    }
}

/// Canonical encoding, omitting fields that hold their default value.
pub fn encode_subspace(m: &Subspace) -> (r: Vec<u8>)
    ensures
        r@ == spec_enc_subspace(m@),
{
    let mut out: Vec<u8> = Vec::new();
    if m.id != 0 {
        encode_varint_field(&mut out, 1, m.id);
    }
    if m.name.len() > 0 {
        encode_bytes_field(&mut out, 2, &m.name);
    }
    if m.description.len() > 0 {
        encode_bytes_field(&mut out, 3, &m.description);
    }
    if m.owner.len() > 0 {
        encode_bytes_field(&mut out, 5, &m.owner);
    }
    if m.creator.len() > 0 {
        encode_bytes_field(&mut out, 6, &m.creator);
    }
    proof {
        let mv = m@;
        let p1 = u64_piece(1, mv.id);
        let p2 = bytes_piece(2, mv.name);
        let p3 = bytes_piece(3, mv.description);
        let p4 = bytes_piece(5, mv.owner);
        let p5 = bytes_piece(6, mv.creator);
        lemma_enc_fields_concat(p1 + p2 + p3 + p4, p5);
        lemma_enc_fields_concat(p1 + p2 + p3, p4);
        lemma_enc_fields_concat(p1 + p2, p3);
        lemma_enc_fields_concat(p1, p2);
        lemma_enc_u64_piece(1, mv.id);
        lemma_enc_bytes_piece(2, mv.name);
        lemma_enc_bytes_piece(3, mv.description);
        lemma_enc_bytes_piece(5, mv.owner);
        lemma_enc_bytes_piece(6, mv.creator);
        assert(out@ =~= spec_enc_subspace(mv));
    }
    out
}

/// Decodes, exactly as the spec decoder does.
pub fn decode_subspace(buf: &Vec<u8>) -> (r: Option<Subspace>)
    ensures
        match r {
            Some(m) => spec_dec_subspace(buf@) == Some(m@),
            None => spec_dec_subspace(buf@) is None,
        },
{
    let fs = match decode_fields_from(buf, 0) {
        None => {
            return None;
        },
        Some(fs) => fs,
    };
    let ghost fsv = fs.deep_view();
    let mut m = Subspace {
        id: 0,
        name: Vec::new(),
        description: Vec::new(),
        owner: Vec::new(),
        creator: Vec::new(),
    };
    assert(m@ =~= subspace_default());
    let mut i: usize = 0;
    while i < fs.len()
        invariant
            0 <= i <= fs.len(),
            fsv == fs.deep_view(),
            m@ == spec_fold_fields(fsv.take(i as int), subspace_default(), subspace_step()),
        decreases fs.len() - i,
    {
        proof {
            lemma_fold_fields_take_step(fsv, i as int, subspace_default(), subspace_step());
        }
        let f = &fs[i];
        match &f.val {
            FieldVal::Bytes(b) => {
                if f.num == 2 {
                    m.name = clone_bytes(b);
                } else if f.num == 3 {
                    m.description = clone_bytes(b);
                } else if f.num == 5 {
                    m.owner = clone_bytes(b);
                } else if f.num == 6 {
                    m.creator = clone_bytes(b);
                }
            },
            FieldVal::Varint(v) => {
                if f.num == 1 {
                    m.id = *v;
                }
            },
        }
        assert(m@ =~= spec_fold_fields(fsv.take(i + 1), subspace_default(), subspace_step()));
        i = i + 1;
    }
    proof {
        assert(fsv.take(fs.len() as int) =~= fsv);
    }
    Some(m)
}

/// Decoding inverts encoding.
pub proof fn lemma_subspace_round_trip(m: SubspaceV)
    requires
        m.name.len() <= u64::MAX,
        m.description.len() <= u64::MAX,
        m.owner.len() <= u64::MAX,
        m.creator.len() <= u64::MAX,
    ensures
        spec_dec_subspace(spec_enc_subspace(m)) == Some(m),
{
    let fs = subspace_fields(m);
    let p1 = u64_piece(1, m.id);
    let p2 = bytes_piece(2, m.name);
    let p3 = bytes_piece(3, m.description);
    let p4 = bytes_piece(5, m.owner);
    let p5 = bytes_piece(6, m.creator);
    lemma_u64_piece_wf(1, m.id);
    lemma_bytes_piece_wf(2, m.name);
    lemma_bytes_piece_wf(3, m.description);
    lemma_bytes_piece_wf(5, m.owner);
    lemma_bytes_piece_wf(6, m.creator);
    lemma_fields_wf_concat(p1, p2);
    lemma_fields_wf_concat(p1 + p2, p3);
    lemma_fields_wf_concat(p1 + p2 + p3, p4);
    lemma_fields_wf_concat(p1 + p2 + p3 + p4, p5);
    assert(fields_wf(fs));
    lemma_parse_enc_fields(Seq::empty(), fs);
    assert(Seq::<u8>::empty() + spec_enc_fields(fs) =~= spec_enc_fields(fs));
    let d = subspace_default();
    let st = subspace_step();
    lemma_fold_fields_concat(p1 + p2 + p3 + p4, p5, d, st);
    lemma_fold_fields_concat(p1 + p2 + p3, p4, d, st);
    lemma_fold_fields_concat(p1 + p2, p3, d, st);
    lemma_fold_fields_concat(p1, p2, d, st);
    let a1 = spec_fold_fields(p1, d, st);
    let a2 = spec_fold_fields(p2, a1, st);
    let a3 = spec_fold_fields(p3, a2, st);
    let a4 = spec_fold_fields(p4, a3, st);
    let a5 = spec_fold_fields(p5, a4, st);
    if m.id != 0 {
        lemma_fold_fields_one(FieldV { num: 1, val: FieldValV::Varint(m.id) }, d, st);
    }
    if m.name.len() > 0 {
        lemma_fold_fields_one(FieldV { num: 2, val: FieldValV::Bytes(m.name) }, a1, st);
    }
    if m.description.len() > 0 {
        lemma_fold_fields_one(FieldV { num: 3, val: FieldValV::Bytes(m.description) }, a2, st);
    }
    if m.owner.len() > 0 {
        lemma_fold_fields_one(FieldV { num: 5, val: FieldValV::Bytes(m.owner) }, a3, st);
    }
    if m.creator.len() > 0 {
        lemma_fold_fields_one(FieldV { num: 6, val: FieldValV::Bytes(m.creator) }, a4, st);
    }
    assert(a5 =~= m);
}

// ---------------------------------------------------------------------------
// QuerySubspaceRequest
// ---------------------------------------------------------------------------

/// Query for one subspace by id.
#[derive(Debug, Clone, PartialEq, Eq)]
pub struct QuerySubspaceRequest {
    pub subspace_id: u64,
}

#[verifier::ext_equal]
pub struct QuerySubspaceRequestV {
    pub subspace_id: u64,
}

impl View for QuerySubspaceRequest {
    type V = QuerySubspaceRequestV;

    open spec fn view(&self) -> QuerySubspaceRequestV {
        QuerySubspaceRequestV {
            subspace_id: self.subspace_id,
        }
    }
}

pub open spec fn query_subspace_request_fields(m: QuerySubspaceRequestV) -> Seq<FieldV> {
    u64_piece(1, m.subspace_id)
}

pub open spec fn spec_enc_query_subspace_request(m: QuerySubspaceRequestV) -> Seq<u8> {
    spec_enc_fields(query_subspace_request_fields(m))
}

pub open spec fn query_subspace_request_default() -> QuerySubspaceRequestV {
    QuerySubspaceRequestV {
        subspace_id: 0,
    }
}

pub open spec fn query_subspace_request_step() -> spec_fn(QuerySubspaceRequestV, FieldV) -> QuerySubspaceRequestV {
    |acc: QuerySubspaceRequestV, f: FieldV|
        match f.val {
            FieldValV::Bytes(_) => acc,
            FieldValV::Varint(v) => {
                if f.num == 1 {
                    QuerySubspaceRequestV {
                        subspace_id: v,
                    }
                } else {
                    acc
                }
            },
        }
}

pub open spec fn spec_dec_query_subspace_request(s: Seq<u8>) -> Option<QuerySubspaceRequestV> {
    match spec_parse_fields(s, 0) {
        None => None,
        Some(fs) => Some(spec_fold_fields(fs, query_subspace_request_default(), query_subspace_request_step())),
    }
}

/// Canonical encoding, omitting fields that hold their default value.
pub fn encode_query_subspace_request(m: &QuerySubspaceRequest) -> (r: Vec<u8>)
    ensures
        r@ == spec_enc_query_subspace_request(m@),
{
    let mut out: Vec<u8> = Vec::new();
    if m.subspace_id != 0 {
        encode_varint_field(&mut out, 1, m.subspace_id);
    }
    proof {
        let mv = m@;
        let p1 = u64_piece(1, mv.subspace_id);
        lemma_enc_u64_piece(1, mv.subspace_id);
        assert(out@ =~= spec_enc_query_subspace_request(mv));
    }
    out
}

/// Decodes, exactly as the spec decoder does.
pub fn decode_query_subspace_request(buf: &Vec<u8>) -> (r: Option<QuerySubspaceRequest>)
    ensures
        match r {
            Some(m) => spec_dec_query_subspace_request(buf@) == Some(m@),
            None => spec_dec_query_subspace_request(buf@) is None,
        },
{
    let fs = match decode_fields_from(buf, 0) {
        None => {
            return None;
        },
        Some(fs) => fs,
    };
    let ghost fsv = fs.deep_view();
    let mut m = QuerySubspaceRequest {
        subspace_id: 0,
    };
    assert(m@ =~= query_subspace_request_default());
    let mut i: usize = 0;
    while i < fs.len()
        invariant
            0 <= i <= fs.len(),
            fsv == fs.deep_view(),
            m@ == spec_fold_fields(fsv.take(i as int), query_subspace_request_default(), query_subspace_request_step()),
        decreases fs.len() - i,
    {
        proof {
            lemma_fold_fields_take_step(fsv, i as int, query_subspace_request_default(), query_subspace_request_step());
        }
        let f = &fs[i];
        match &f.val {
            FieldVal::Bytes(_) => {},
            FieldVal::Varint(v) => {
                if f.num == 1 {
                    m.subspace_id = *v;
                }
            },
        }
        assert(m@ =~= spec_fold_fields(fsv.take(i + 1), query_subspace_request_default(), query_subspace_request_step()));
        i = i + 1;
    }
    proof {
        assert(fsv.take(fs.len() as int) =~= fsv);
    }
    Some(m)
}

/// Decoding inverts encoding.
pub proof fn lemma_query_subspace_request_round_trip(m: QuerySubspaceRequestV)
    ensures
        spec_dec_query_subspace_request(spec_enc_query_subspace_request(m)) == Some(m),
{
    let fs = query_subspace_request_fields(m);
    let p1 = u64_piece(1, m.subspace_id);
    lemma_u64_piece_wf(1, m.subspace_id);
    assert(fields_wf(fs));
    lemma_parse_enc_fields(Seq::empty(), fs);
    assert(Seq::<u8>::empty() + spec_enc_fields(fs) =~= spec_enc_fields(fs));
    let d = query_subspace_request_default();
    let st = query_subspace_request_step();
    let a1 = spec_fold_fields(p1, d, st);
    if m.subspace_id != 0 {
        lemma_fold_fields_one(FieldV { num: 1, val: FieldValV::Varint(m.subspace_id) }, d, st);
    }
    assert(a1 =~= m);
}

// ---------------------------------------------------------------------------
// MsgEditSubspaceResponse
// ---------------------------------------------------------------------------

/// Response to an edit-subspace request; carries nothing.
#[derive(Debug, Clone, PartialEq, Eq)]
pub struct MsgEditSubspaceResponse {}

#[verifier::ext_equal]
pub struct MsgEditSubspaceResponseV {}

impl View for MsgEditSubspaceResponse {
    type V = MsgEditSubspaceResponseV;

    open spec fn view(&self) -> MsgEditSubspaceResponseV {
        MsgEditSubspaceResponseV {}
    }
}

pub open spec fn spec_enc_edit_subspace_response(m: MsgEditSubspaceResponseV) -> Seq<u8> {
    spec_enc_fields(Seq::empty())
}

pub open spec fn spec_dec_edit_subspace_response(s: Seq<u8>) -> Option<MsgEditSubspaceResponseV> {
    match spec_parse_fields(s, 0) {
        None => None,
        Some(_) => Some(MsgEditSubspaceResponseV {}),
    }
}

/// Canonical encoding: an empty message has no bytes at all.
pub fn encode_edit_subspace_response(m: &MsgEditSubspaceResponse) -> (r: Vec<u8>)
    ensures
        r@ == spec_enc_edit_subspace_response(m@),
{
    let out: Vec<u8> = Vec::new();
    assert(out@ =~= spec_enc_fields(Seq::empty()));
    out
}

/// Decodes, exactly as the spec decoder does.
pub fn decode_edit_subspace_response(buf: &Vec<u8>) -> (r: Option<MsgEditSubspaceResponse>)
    ensures
        match r {
            Some(m) => spec_dec_edit_subspace_response(buf@) == Some(m@),
            None => spec_dec_edit_subspace_response(buf@) is None,
        },
{
    match decode_fields_from(buf, 0) {
        None => None,
        Some(_) => Some(MsgEditSubspaceResponse {}),
    }
}

/// Decoding inverts encoding.
pub proof fn lemma_edit_subspace_response_round_trip(m: MsgEditSubspaceResponseV)
    ensures
        spec_dec_edit_subspace_response(spec_enc_edit_subspace_response(m)) == Some(m),
{
    lemma_parse_enc_fields(Seq::empty(), Seq::empty());
    assert(Seq::<u8>::empty() + spec_enc_fields(Seq::empty()) =~= spec_enc_fields(Seq::empty()));
    assert(m =~= MsgEditSubspaceResponseV {});
}

// ---------------------------------------------------------------------------
// MsgDeleteSubspaceResponse
// ---------------------------------------------------------------------------

/// Response to a delete-subspace request; carries nothing.
#[derive(Debug, Clone, PartialEq, Eq)]
pub struct MsgDeleteSubspaceResponse {}

#[verifier::ext_equal]
pub struct MsgDeleteSubspaceResponseV {}

impl View for MsgDeleteSubspaceResponse {
    type V = MsgDeleteSubspaceResponseV;

    open spec fn view(&self) -> MsgDeleteSubspaceResponseV {
        MsgDeleteSubspaceResponseV {}
    }
}

pub open spec fn spec_enc_delete_subspace_response(m: MsgDeleteSubspaceResponseV) -> Seq<u8> {
    spec_enc_fields(Seq::empty())
}

pub open spec fn spec_dec_delete_subspace_response(s: Seq<u8>) -> Option<MsgDeleteSubspaceResponseV> {
    match spec_parse_fields(s, 0) {
        None => None,
        Some(_) => Some(MsgDeleteSubspaceResponseV {}),
    }
}

/// Canonical encoding: an empty message has no bytes at all.
pub fn encode_delete_subspace_response(m: &MsgDeleteSubspaceResponse) -> (r: Vec<u8>)
    ensures
        r@ == spec_enc_delete_subspace_response(m@),
{
    let out: Vec<u8> = Vec::new();
    assert(out@ =~= spec_enc_fields(Seq::empty()));
    out
}

/// Decodes, exactly as the spec decoder does.
pub fn decode_delete_subspace_response(buf: &Vec<u8>) -> (r: Option<MsgDeleteSubspaceResponse>)
    ensures
        match r {
            Some(m) => spec_dec_delete_subspace_response(buf@) == Some(m@),
            None => spec_dec_delete_subspace_response(buf@) is None,
        },
{
    match decode_fields_from(buf, 0) {
        None => None,
        Some(_) => Some(MsgDeleteSubspaceResponse {}),
    }
}

/// Decoding inverts encoding.
pub proof fn lemma_delete_subspace_response_round_trip(m: MsgDeleteSubspaceResponseV)
    ensures
        spec_dec_delete_subspace_response(spec_enc_delete_subspace_response(m)) == Some(m),
{
    lemma_parse_enc_fields(Seq::empty(), Seq::empty());
    assert(Seq::<u8>::empty() + spec_enc_fields(Seq::empty()) =~= spec_enc_fields(Seq::empty()));
    assert(m =~= MsgDeleteSubspaceResponseV {});
}

// ---------------------------------------------------------------------------
// QuerySubspaceResponse
// ---------------------------------------------------------------------------

/// Response to a subspace query, carrying the queried subspace.
///
/// The subspace is always present: a query for an id the chain does not hold surfaces as a query error, never as an empty response.
#[derive(Debug, Clone, PartialEq, Eq)]
pub struct QuerySubspaceResponse {
    pub subspace: Subspace,
}

#[verifier::ext_equal]
pub struct QuerySubspaceResponseV {
    pub subspace: SubspaceV,
}

impl View for QuerySubspaceResponse {
    type V = QuerySubspaceResponseV;

    open spec fn view(&self) -> QuerySubspaceResponseV {
        QuerySubspaceResponseV { subspace: self.subspace@ }
    }
}

pub open spec fn spec_enc_query_subspace_response(m: QuerySubspaceResponseV) -> Seq<u8> {
    spec_enc_fields(msg_piece(1, spec_enc_subspace(m.subspace)))
}

/// Collects the body of the embedded message: the last occurrence wins.
pub open spec fn query_subspace_response_body_step() -> spec_fn(Option<Seq<u8>>, FieldV) -> Option<Seq<u8>> {
    |acc: Option<Seq<u8>>, f: FieldV|
        match f.val {
            FieldValV::Bytes(b) => if f.num == 1 {
                Some(b)
            } else {
                acc
            },
            FieldValV::Varint(_) => acc,
        }
}

pub open spec fn spec_dec_query_subspace_response(s: Seq<u8>) -> Option<QuerySubspaceResponseV> {
    match spec_parse_fields(s, 0) {
        None => None,
        Some(fs) => match spec_fold_fields(fs, None, query_subspace_response_body_step()) {
            None => None,
            Some(b) => match spec_dec_subspace(b) {
                None => None,
                Some(e) => Some(QuerySubspaceResponseV { subspace: e }),
            },
        },
    }
}

/// Canonical encoding: the embedded message is always written.
pub fn encode_query_subspace_response(m: &QuerySubspaceResponse) -> (r: Vec<u8>)
    ensures
        r@ == spec_enc_query_subspace_response(m@),
{
    let body = encode_subspace(&m.subspace);
    let mut out: Vec<u8> = Vec::new();
    encode_bytes_field(&mut out, 1, &body);
    proof {
        lemma_enc_msg_piece(1, spec_enc_subspace(m@.subspace));
        assert(out@ =~= spec_enc_query_subspace_response(m@));
    }
    out
}

/// Decodes, exactly as the spec decoder does.
pub fn decode_query_subspace_response(buf: &Vec<u8>) -> (r: Option<QuerySubspaceResponse>)
    ensures
        match r {
            Some(m) => spec_dec_query_subspace_response(buf@) == Some(m@),
            None => spec_dec_query_subspace_response(buf@) is None,
        },
{
    let fs = match decode_fields_from(buf, 0) {
        None => {
            return None;
        },
        Some(fs) => fs,
    };
    let ghost fsv = fs.deep_view();
    let mut body: Option<Vec<u8>> = None;
    let mut i: usize = 0;
    while i < fs.len()
        invariant
            0 <= i <= fs.len(),
            fsv == fs.deep_view(),
            body.deep_view() == spec_fold_fields(fsv.take(i as int), None::<Seq<u8>>, query_subspace_response_body_step()),
        decreases fs.len() - i,
    {
        proof {
            lemma_fold_fields_take_step(fsv, i as int, None::<Seq<u8>>, query_subspace_response_body_step());
        }
        let f = &fs[i];
        match &f.val {
            FieldVal::Bytes(b) => {
                if f.num == 1 {
                    body = Some(clone_bytes(b));
                }
            },
            FieldVal::Varint(_) => {},
        }
        assert(body.deep_view() =~= spec_fold_fields(
            fsv.take(i + 1),
            None::<Seq<u8>>,
            query_subspace_response_body_step(),
        ));
        i = i + 1;
    }
    proof {
        assert(fsv.take(fs.len() as int) =~= fsv);
    }
    match body {
        None => None,
        Some(b) => {
            proof {
                assert(b.deep_view() =~= b@);
            }
            match decode_subspace(&b) {
                None => None,
                Some(e) => Some(QuerySubspaceResponse { subspace: e }),
            }
        },
    }
}

/// Decoding inverts encoding whenever the embedded message fits its
/// length prefix.
pub proof fn lemma_query_subspace_response_round_trip(m: QuerySubspaceResponseV)
    requires
        spec_enc_subspace(m.subspace).len() <= u64::MAX,
        m.subspace.name.len() <= u64::MAX,
        m.subspace.description.len() <= u64::MAX,
        m.subspace.owner.len() <= u64::MAX,
        m.subspace.creator.len() <= u64::MAX,
    ensures
        spec_dec_query_subspace_response(spec_enc_query_subspace_response(m)) == Some(m),
{
    let body = spec_enc_subspace(m.subspace);
    lemma_msg_piece_wf(1, body);
    lemma_parse_enc_fields(Seq::empty(), msg_piece(1, body));
    assert(Seq::<u8>::empty() + spec_enc_fields(msg_piece(1, body)) =~= spec_enc_fields(
        msg_piece(1, body),
    ));
    lemma_fold_fields_one(
        FieldV { num: 1, val: FieldValV::Bytes(body) },
        None::<Seq<u8>>,
        query_subspace_response_body_step(),
    );
    lemma_subspace_round_trip(m.subspace);
    assert(QuerySubspaceResponseV { subspace: m.subspace } =~= m);
}


impl DeepView for Subspace {
    type V = SubspaceV;

    open spec fn deep_view(&self) -> SubspaceV {
        self.view()
    }
}

/// A subspace as the chain stores it: every byte-string field within the
/// chain's field-length limit.
pub open spec fn subspace_v_wf(s: SubspaceV) -> bool {
    &&& s.name.len() <= MAX_TEXT_LEN
    &&& s.description.len() <= MAX_TEXT_LEN
    &&& s.owner.len() <= MAX_TEXT_LEN
    &&& s.creator.len() <= MAX_TEXT_LEN
}

/// A stored subspace's encoding stays well inside its length prefix.
pub proof fn lemma_enc_subspace_len(s: SubspaceV)
    requires
        subspace_v_wf(s),
    ensures
        spec_enc_subspace(s).len() <= 0x50000,
{
    let p1 = u64_piece(1, s.id);
    let p2 = bytes_piece(2, s.name);
    let p3 = bytes_piece(3, s.description);
    let p4 = bytes_piece(5, s.owner);
    let p5 = bytes_piece(6, s.creator);
    lemma_enc_fields_concat(p1 + p2 + p3 + p4, p5);
    lemma_enc_fields_concat(p1 + p2 + p3, p4);
    lemma_enc_fields_concat(p1 + p2, p3);
    lemma_enc_fields_concat(p1, p2);
    lemma_enc_u64_piece(1, s.id);
    lemma_enc_bytes_piece(2, s.name);
    lemma_enc_bytes_piece(3, s.description);
    lemma_enc_bytes_piece(5, s.owner);
    lemma_enc_bytes_piece(6, s.creator);
    if s.id != 0 {
        lemma_enc_field_len(FieldV { num: 1, val: FieldValV::Varint(s.id) });
    }
    if s.name.len() > 0 {
        lemma_enc_field_len(FieldV { num: 2, val: FieldValV::Bytes(s.name) });
    }
    if s.description.len() > 0 {
        lemma_enc_field_len(FieldV { num: 3, val: FieldValV::Bytes(s.description) });
    }
    if s.owner.len() > 0 {
        lemma_enc_field_len(FieldV { num: 5, val: FieldValV::Bytes(s.owner) });
    }
    if s.creator.len() > 0 {
        lemma_enc_field_len(FieldV { num: 6, val: FieldValV::Bytes(s.creator) });
    }
}

/// Copies a subspace.
pub fn clone_subspace(s: &Subspace) -> (r: Subspace)
    ensures
        r@ == s@,
{
    Subspace {
        id: s.id,
        name: clone_bytes(&s.name),
        description: clone_bytes(&s.description),
        owner: clone_bytes(&s.owner),
        creator: clone_bytes(&s.creator),
    }
}

// ---------------------------------------------------------------------------
// Type URLs and endpoint paths
// ---------------------------------------------------------------------------

/// Type URL under which a create-subspace request travels.
pub open spec fn spec_create_subspace_url() -> Seq<u8> {
    "/desmos.subspaces.v3.MsgCreateSubspace".spec_bytes()
}

pub fn create_subspace_url() -> (r: Vec<u8>)
    ensures
        r@ == spec_create_subspace_url(),
{
    vstd::slice::slice_to_vec("/desmos.subspaces.v3.MsgCreateSubspace".as_bytes())
}

/// Type URL under which an edit-subspace request travels.
pub open spec fn spec_edit_subspace_url() -> Seq<u8> {
    "/desmos.subspaces.v3.MsgEditSubspace".spec_bytes()
}

pub fn edit_subspace_url() -> (r: Vec<u8>)
    ensures
        r@ == spec_edit_subspace_url(),
{
    vstd::slice::slice_to_vec("/desmos.subspaces.v3.MsgEditSubspace".as_bytes())
}

/// Type URL under which a delete-subspace request travels.
pub open spec fn spec_delete_subspace_url() -> Seq<u8> {
    "/desmos.subspaces.v3.MsgDeleteSubspace".spec_bytes()
}

pub fn delete_subspace_url() -> (r: Vec<u8>)
    ensures
        r@ == spec_delete_subspace_url(),
{
    vstd::slice::slice_to_vec("/desmos.subspaces.v3.MsgDeleteSubspace".as_bytes())
}

/// Endpoint path of the subspace query.
pub open spec fn spec_query_subspace_path() -> Seq<u8> {
    "/desmos.subspaces.v3.Query/Subspace".spec_bytes()
}

pub fn query_subspace_path() -> (r: Vec<u8>)
    ensures
        r@ == spec_query_subspace_path(),
{
    vstd::slice::slice_to_vec("/desmos.subspaces.v3.Query/Subspace".as_bytes())
}


// ---------------------------------------------------------------------------
// The subspaces binding
// ---------------------------------------------------------------------------

/// The subspaces module binding.  Stateless: each operation borrows the
/// runner for the duration of one call.  Every operation fixes its request
/// type, its response type and (for queries) its endpoint path at
/// definition time; the caller never sees bytes or path strings.
pub struct Subspaces {}

impl Subspaces {
    /// Submits a create-subspace request signed by `signer`.
    ///
    /// Succeeds exactly when the signer is a known account and the
    /// runner's create-subspace rules accept the message; the response
    /// then carries the id of the new subspace and the state commits one
    /// block.  On any rejection the committed state is untouched and the
    /// error names the chain's reason.
    pub fn create_subspace(
        app: &mut DesmosTestApp,
        msg: MsgCreateSubspace,
        signer: &SigningAccount,
    ) -> (r: Result<MsgCreateSubspaceResponse, Error>)
        requires
            old(app).wf(),
        ensures
            final(app).wf(),
            !has_account(old(app)@, signer.address@) ==> final(app)@ == old(app)@ && r
                == Err::<MsgCreateSubspaceResponse, Error>(
                Error::ExecutionError(ExecError::UnknownSigner),
            ),
            has_account(old(app)@, signer.address@) ==> match apply_create_subspace(
                old(app)@,
                msg@,
                signer.address@,
            ) {
                Ok(p) => {
                    &&& final(app)@ == spec_commit(p.0)
                    &&& r is Ok
                    &&& r->Ok_0.subspace_id == p.1
                },
                Err(e) => final(app)@ == old(app)@ && r == Err::<
                    MsgCreateSubspaceResponse,
                    Error,
                >(Error::ExecutionError(e)),
            },
    {
        let name_len = msg.name.len();
        let description_len = msg.description.len();
        let owner_len = msg.owner.len();
        let creator_len = msg.creator.len();
        let body = encode_create_subspace(&msg);
        let url = create_subspace_url();
        let url_len = url.len();
        let body_len = body.len();
        proof {
            assert(spec_create_subspace_url().len() == url_len);
            assert(spec_enc_create_subspace(msg@).len() == body_len);
            assert(msg@.name.len() == name_len);
            assert(msg@.description.len() == description_len);
            assert(msg@.owner.len() == owner_len);
            assert(msg@.creator.len() == creator_len);
            lemma_any_round_trip(
                WireAnyV {
                    type_url: spec_create_subspace_url(),
                    value: spec_enc_create_subspace(msg@),
                },
            );
            lemma_create_subspace_round_trip(msg@);
        }
        let tx = encode_any(&WireAny { type_url: url, value: body });
        match app.execute_any(&tx, signer) {
            Err(e) => Err(e),
            Ok(resbytes) => {
                proof {
                    let p = apply_create_subspace(old(app)@, msg@, signer.address@)->Ok_0;
                    lemma_create_subspace_response_round_trip(
                        MsgCreateSubspaceResponseV { subspace_id: p.1 },
                    );
                }
                match decode_create_subspace_response(&resbytes) {
                    None => {
                        proof {
                            assert(false);
                        }
                        Err(Error::DecodeError)
                    },
                    Some(resp) => Ok(resp),
                }
            },
        }
    }

    /// Submits an edit-subspace request signed by `signer`.
    ///
    /// Succeeds exactly when the signer is a known account and the
    /// runner's rules for this message accept it; the accepted message
    /// commits one block.  On any rejection the committed state is
    /// untouched and the error names the chain's reason.
    pub fn edit_subspace(
        app: &mut DesmosTestApp,
        msg: MsgEditSubspace,
        signer: &SigningAccount,
    ) -> (r: Result<MsgEditSubspaceResponse, Error>)
        requires
            old(app).wf(),
        ensures
            final(app).wf(),
            !has_account(old(app)@, signer.address@) ==> final(app)@ == old(app)@ && r
                == Err::<MsgEditSubspaceResponse, Error>(
                Error::ExecutionError(ExecError::UnknownSigner),
            ),
            has_account(old(app)@, signer.address@) ==> match apply_edit_subspace(
                old(app)@,
                msg@,
                signer.address@,
            ) {
                Ok(s2) => final(app)@ == spec_commit(s2) && r is Ok,
                Err(e) => final(app)@ == old(app)@ && r == Err::<
                    MsgEditSubspaceResponse,
                    Error,
                >(Error::ExecutionError(e)),
            },
    {
        let name_len = msg.name.len();
        let description_len = msg.description.len();
        let owner_len = msg.owner.len();
        let signer_len = msg.signer.len();
        let body = encode_edit_subspace(&msg);
        let url = edit_subspace_url();
        let url_len = url.len();
        let body_len = body.len();
        proof {
            assert(spec_edit_subspace_url().len() == url_len);
            assert(spec_enc_edit_subspace(msg@).len() == body_len);
            assert(msg@.name.len() == name_len);
            assert(msg@.description.len() == description_len);
            assert(msg@.owner.len() == owner_len);
            assert(msg@.signer.len() == signer_len);
            lemma_any_round_trip(
                WireAnyV {
                    type_url: spec_edit_subspace_url(),
                    value: spec_enc_edit_subspace(msg@),
                },
            );
            lemma_edit_subspace_round_trip(msg@);
            crate::runner::lemma_type_urls_distinct();
        }
        let tx = encode_any(&WireAny { type_url: url, value: body });
        match app.execute_any(&tx, signer) {
            Err(e) => Err(e),
            Ok(resbytes) => {
                proof {
                    lemma_edit_subspace_response_round_trip((MsgEditSubspaceResponseV {  }));
                }
                match decode_edit_subspace_response(&resbytes) {
                    None => {
                        proof {
                            assert(false);
                        }
                        Err(Error::DecodeError)
                    },
                    Some(resp) => Ok(resp),
                }
            },
        }
    }


    /// Submits a delete-subspace request signed by `signer`.
    ///
    /// Succeeds exactly when the signer is a known account and the
    /// runner's rules for this message accept it; the accepted message
    /// commits one block.  On any rejection the committed state is
    /// untouched and the error names the chain's reason.
    pub fn delete_subspace(
        app: &mut DesmosTestApp,
        msg: MsgDeleteSubspace,
        signer: &SigningAccount,
    ) -> (r: Result<MsgDeleteSubspaceResponse, Error>)
        requires
            old(app).wf(),
        ensures
            final(app).wf(),
            !has_account(old(app)@, signer.address@) ==> final(app)@ == old(app)@ && r
                == Err::<MsgDeleteSubspaceResponse, Error>(
                Error::ExecutionError(ExecError::UnknownSigner),
            ),
            has_account(old(app)@, signer.address@) ==> match apply_delete_subspace(
                old(app)@,
                msg@,
                signer.address@,
            ) {
                Ok(s2) => final(app)@ == spec_commit(s2) && r is Ok,
                Err(e) => final(app)@ == old(app)@ && r == Err::<
                    MsgDeleteSubspaceResponse,
                    Error,
                >(Error::ExecutionError(e)),
            },
    {
        let signer_len = msg.signer.len();
        let body = encode_delete_subspace(&msg);
        let url = delete_subspace_url();
        let url_len = url.len();
        let body_len = body.len();
        proof {
            assert(spec_delete_subspace_url().len() == url_len);
            assert(spec_enc_delete_subspace(msg@).len() == body_len);
            assert(msg@.signer.len() == signer_len);
            lemma_any_round_trip(
                WireAnyV {
                    type_url: spec_delete_subspace_url(),
                    value: spec_enc_delete_subspace(msg@),
                },
            );
            lemma_delete_subspace_round_trip(msg@);
            crate::runner::lemma_type_urls_distinct();
        }
        let tx = encode_any(&WireAny { type_url: url, value: body });
        match app.execute_any(&tx, signer) {
            Err(e) => Err(e),
            Ok(resbytes) => {
                proof {
                    lemma_delete_subspace_response_round_trip((MsgDeleteSubspaceResponseV {  }));
                }
                match decode_delete_subspace_response(&resbytes) {
                    None => {
                        proof {
                            assert(false);
                        }
                        Err(Error::DecodeError)
                    },
                    Some(resp) => Ok(resp),
                }
            },
        }
    }

    /// Queries one subspace by id over the fixed endpoint path.
    ///
    /// The subspace is returned exactly when the chain holds it; an
    /// unknown id surfaces as a query error, never as an empty response.
    pub fn query_subspace(app: &DesmosTestApp, req: &QuerySubspaceRequest) -> (r: Result<
        QuerySubspaceResponse,
        Error,
    >)
        requires
            app.wf(),
        ensures
            match find_subspace(app@.subspaces, req.subspace_id) {
                Some(sub) => r is Ok && r->Ok_0@.subspace == sub,
                None => r == Err::<QuerySubspaceResponse, Error>(
                    Error::QueryError(QueryError::SubspaceNotFound),
                ),
            },
    {
        let reqb = encode_query_subspace_request(req);
        let path = query_subspace_path();
        proof {
            lemma_query_subspace_request_round_trip(req@);
        }
        match app.query_raw(&path, &reqb) {
            Err(e) => Err(e),
            Ok(resbytes) => {
                proof {
                    if find_subspace(app@.subspaces, req.subspace_id) is Some {
                        let sub = find_subspace(app@.subspaces, req.subspace_id)->Some_0;
                        lemma_find_subspace_mem(app@.subspaces, req.subspace_id);
                        let i = choose|i: int|
                            0 <= i < app@.subspaces.len() && app@.subspaces[i] == sub;
                        assert(subspace_v_wf(app@.subspaces[i]));
                        lemma_enc_subspace_len(sub);
                        lemma_query_subspace_response_round_trip(
                            (QuerySubspaceResponseV { subspace: sub }),
                        );
                    }
                }
                match decode_query_subspace_response(&resbytes) {
                    None => {
                        proof {
                            assert(false);
                        }
                        Err(Error::DecodeError)
                    },
                    Some(resp) => Ok(resp),
                }
            },
        }
    }
}

} // verus!
