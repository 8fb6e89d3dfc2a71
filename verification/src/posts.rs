//! Posts module: typed messages, their wire codecs, and the bindings.
//!
//! Each execute operation pairs a request message with a response message
//! and a type URL; each query operation additionally carries its fixed
//! endpoint path.  Field numbers follow the chain's published schema.

use crate::wire::{
    bytes_piece, clone_bytes, decode_fields_from, encode_bytes_field, encode_varint_field,
    fields_wf, lemma_bytes_piece_wf, lemma_enc_bytes_piece, lemma_enc_fields_concat,
    lemma_enc_msg_piece, lemma_enc_u32_piece, lemma_enc_u64_piece, lemma_fields_wf_concat,
    lemma_fold_fields_concat, lemma_fold_fields_one, lemma_fold_fields_take_step,
    lemma_enc_field_len, lemma_msg_piece_wf, lemma_parse_enc_fields, lemma_u32_piece_wf, lemma_u64_piece_wf, msg_piece,
    encode_any, lemma_any_round_trip, spec_enc_field, spec_enc_fields, spec_fold_fields,
    spec_parse_fields, u32_piece, u64_piece, Field, FieldV, FieldVal, FieldValV, WireAny,
    WireAnyV, MAX_TEXT_LEN,
};
use crate::runner::{
    apply_create_post, apply_delete_post, apply_edit_post, find_post, has_account,
    lemma_find_post_mem, lemma_posts_of_subspace_all, posts_of_subspace, spec_commit,
    DesmosTestApp, Error, ExecError, QueryError, SigningAccount,
};
use vstd::prelude::*;
use vstd::string::StringSliceAdditionalSpecFns;

verus! {

// ---------------------------------------------------------------------------
// MsgCreatePost
// ---------------------------------------------------------------------------

/// Request to create a post inside an existing subspace.
#[derive(Debug, Clone, PartialEq, Eq)]
pub struct MsgCreatePost {
    pub subspace_id: u64,
    pub section_id: u32,
    pub text: Vec<u8>,
    pub author: Vec<u8>,
}

#[verifier::ext_equal]
pub struct MsgCreatePostV {
    pub subspace_id: u64,
    pub section_id: u32,
    pub text: Seq<u8>,
    pub author: Seq<u8>,
}

impl View for MsgCreatePost {
    type V = MsgCreatePostV;

    open spec fn view(&self) -> MsgCreatePostV {
        MsgCreatePostV {
            subspace_id: self.subspace_id,
            section_id: self.section_id,
            text: self.text@,
            author: self.author@,
        }
    }
}

pub open spec fn create_post_fields(m: MsgCreatePostV) -> Seq<FieldV> {
    u64_piece(1, m.subspace_id) + u32_piece(2, m.section_id) + bytes_piece(4, m.text) + bytes_piece(8, m.author)
}

pub open spec fn spec_enc_create_post(m: MsgCreatePostV) -> Seq<u8> {
    spec_enc_fields(create_post_fields(m))
}

pub open spec fn create_post_default() -> MsgCreatePostV {
    MsgCreatePostV {
        subspace_id: 0,
        section_id: 0,
        text: Seq::empty(),
        author: Seq::empty(),
    }
}

pub open spec fn create_post_step() -> spec_fn(MsgCreatePostV, FieldV) -> MsgCreatePostV {
    |acc: MsgCreatePostV, f: FieldV|
        match f.val {
            FieldValV::Bytes(b) => {
                if f.num == 4 {
                    MsgCreatePostV {
                        subspace_id: acc.subspace_id,
                        section_id: acc.section_id,
                        text: b,
                        author: acc.author,
                    }
                } else if f.num == 8 {
                    MsgCreatePostV {
                        subspace_id: acc.subspace_id,
                        section_id: acc.section_id,
                        text: acc.text,
                        author: b,
                    }
                } else {
                    acc
                }
            },
            FieldValV::Varint(v) => {
                if f.num == 1 {
                    MsgCreatePostV {
                        subspace_id: v,
                        section_id: acc.section_id,
                        text: acc.text,
                        author: acc.author,
                    }
                } else if f.num == 2 && v <= u32::MAX as u64 {
                    MsgCreatePostV {
                        subspace_id: acc.subspace_id,
                        section_id: v as u32,
                        text: acc.text,
                        author: acc.author,
                    }
                } else {
                    acc
                }
            },
        }
}

pub open spec fn spec_dec_create_post(s: Seq<u8>) -> Option<MsgCreatePostV> {
    match spec_parse_fields(s, 0) {
        None => None,
        Some(fs) => Some(spec_fold_fields(fs, create_post_default(), create_post_step())),
    }
}

/// Canonical encoding, omitting fields that hold their default value.
pub fn encode_create_post(m: &MsgCreatePost) -> (r: Vec<u8>)
    ensures
        r@ == spec_enc_create_post(m@),
{
    let mut out: Vec<u8> = Vec::new();
    if m.subspace_id != 0 {
        encode_varint_field(&mut out, 1, m.subspace_id);
    }
    if m.section_id != 0 {
        encode_varint_field(&mut out, 2, m.section_id as u64);
    }
    if m.text.len() > 0 {
        encode_bytes_field(&mut out, 4, &m.text);
    }
    if m.author.len() > 0 {
        encode_bytes_field(&mut out, 8, &m.author);
    }
    proof {
        let mv = m@;
        let p1 = u64_piece(1, mv.subspace_id);
        let p2 = u32_piece(2, mv.section_id);
        let p3 = bytes_piece(4, mv.text);
        let p4 = bytes_piece(8, mv.author);
        lemma_enc_fields_concat(p1 + p2 + p3, p4);
        lemma_enc_fields_concat(p1 + p2, p3);
        lemma_enc_fields_concat(p1, p2);
        lemma_enc_u64_piece(1, mv.subspace_id);
        lemma_enc_u32_piece(2, mv.section_id);
        lemma_enc_bytes_piece(4, mv.text);
        lemma_enc_bytes_piece(8, mv.author);
        assert(out@ =~= spec_enc_create_post(mv));
    }
    out
}

/// Decodes, exactly as the spec decoder does.
pub fn decode_create_post(buf: &Vec<u8>) -> (r: Option<MsgCreatePost>)
    ensures
        match r {
            Some(m) => spec_dec_create_post(buf@) == Some(m@),
            None => spec_dec_create_post(buf@) is None,
        },
{
    let fs = match decode_fields_from(buf, 0) {
        None => {
            return None;
        },
        Some(fs) => fs,
    };
    let ghost fsv = fs.deep_view();
    let mut m = MsgCreatePost {
        subspace_id: 0,
        section_id: 0,
        text: Vec::new(),
        author: Vec::new(),
    };
    assert(m@ =~= create_post_default());
    let mut i: usize = 0;
    while i < fs.len()
        invariant
            0 <= i <= fs.len(),
            fsv == fs.deep_view(),
            m@ == spec_fold_fields(fsv.take(i as int), create_post_default(), create_post_step()),
        decreases fs.len() - i,
    {
        proof {
            lemma_fold_fields_take_step(fsv, i as int, create_post_default(), create_post_step());
        }
        let f = &fs[i];
        match &f.val {
            FieldVal::Bytes(b) => {
                if f.num == 4 {
                    m.text = clone_bytes(b);
                } else if f.num == 8 {
                    m.author = clone_bytes(b);
                }
            },
            FieldVal::Varint(v) => {
                if f.num == 1 {
                    m.subspace_id = *v;
                } else if f.num == 2 && *v <= u32::MAX as u64 {
                    m.section_id = *v as u32;
                }
            },
        }
        assert(m@ =~= spec_fold_fields(fsv.take(i + 1), create_post_default(), create_post_step()));
        i = i + 1;
    }
    proof {
        assert(fsv.take(fs.len() as int) =~= fsv);
    }
    Some(m)
}

/// Decoding inverts encoding.
pub proof fn lemma_create_post_round_trip(m: MsgCreatePostV)
    requires
        m.text.len() <= u64::MAX,
        m.author.len() <= u64::MAX,
    ensures
        spec_dec_create_post(spec_enc_create_post(m)) == Some(m),
{
    let fs = create_post_fields(m);
    let p1 = u64_piece(1, m.subspace_id);
    let p2 = u32_piece(2, m.section_id);
    let p3 = bytes_piece(4, m.text);
    let p4 = bytes_piece(8, m.author);
    lemma_u64_piece_wf(1, m.subspace_id);
    lemma_u32_piece_wf(2, m.section_id);
    lemma_bytes_piece_wf(4, m.text);
    lemma_bytes_piece_wf(8, m.author);
    lemma_fields_wf_concat(p1, p2);
    lemma_fields_wf_concat(p1 + p2, p3);
    lemma_fields_wf_concat(p1 + p2 + p3, p4);
    assert(fields_wf(fs));
    lemma_parse_enc_fields(Seq::empty(), fs);
    assert(Seq::<u8>::empty() + spec_enc_fields(fs) =~= spec_enc_fields(fs));
    let d = create_post_default();
    let st = create_post_step();
    lemma_fold_fields_concat(p1 + p2 + p3, p4, d, st);
    lemma_fold_fields_concat(p1 + p2, p3, d, st);
    lemma_fold_fields_concat(p1, p2, d, st);
    let a1 = spec_fold_fields(p1, d, st);
    let a2 = spec_fold_fields(p2, a1, st);
    let a3 = spec_fold_fields(p3, a2, st);
    let a4 = spec_fold_fields(p4, a3, st);
    if m.subspace_id != 0 {
        lemma_fold_fields_one(FieldV { num: 1, val: FieldValV::Varint(m.subspace_id) }, d, st);
    }
    if m.section_id != 0 {
        lemma_fold_fields_one(FieldV { num: 2, val: FieldValV::Varint(m.section_id as u64) }, a1, st);
    }
    if m.text.len() > 0 {
        lemma_fold_fields_one(FieldV { num: 4, val: FieldValV::Bytes(m.text) }, a2, st);
    }
    if m.author.len() > 0 {
        lemma_fold_fields_one(FieldV { num: 8, val: FieldValV::Bytes(m.author) }, a3, st);
    }
    assert(a4 =~= m);
}

// ---------------------------------------------------------------------------
// MsgCreatePostResponse
// ---------------------------------------------------------------------------

/// Response to a create-post request, carrying the new post id.
#[derive(Debug, Clone, PartialEq, Eq)]
pub struct MsgCreatePostResponse {
    pub post_id: u64,
}

#[verifier::ext_equal]
pub struct MsgCreatePostResponseV {
    pub post_id: u64,
}

impl View for MsgCreatePostResponse {
    type V = MsgCreatePostResponseV;

    open spec fn view(&self) -> MsgCreatePostResponseV {
        MsgCreatePostResponseV {
            post_id: self.post_id,
        }
    }
}

pub open spec fn create_post_response_fields(m: MsgCreatePostResponseV) -> Seq<FieldV> {
    u64_piece(1, m.post_id)
}

pub open spec fn spec_enc_create_post_response(m: MsgCreatePostResponseV) -> Seq<u8> {
    spec_enc_fields(create_post_response_fields(m))
}

pub open spec fn create_post_response_default() -> MsgCreatePostResponseV {
    MsgCreatePostResponseV {
        post_id: 0,
    }
}

pub open spec fn create_post_response_step() -> spec_fn(MsgCreatePostResponseV, FieldV) -> MsgCreatePostResponseV {
    |acc: MsgCreatePostResponseV, f: FieldV|
        match f.val {
            FieldValV::Bytes(_) => acc,
            FieldValV::Varint(v) => {
                if f.num == 1 {
                    MsgCreatePostResponseV {
                        post_id: v,
                    }
                } else {
                    acc
                }
            },
        }
}

pub open spec fn spec_dec_create_post_response(s: Seq<u8>) -> Option<MsgCreatePostResponseV> {
    match spec_parse_fields(s, 0) {
        None => None,
        Some(fs) => Some(spec_fold_fields(fs, create_post_response_default(), create_post_response_step())),
    }
}

/// Canonical encoding, omitting fields that hold their default value.
pub fn encode_create_post_response(m: &MsgCreatePostResponse) -> (r: Vec<u8>)
    ensures
        r@ == spec_enc_create_post_response(m@),
{
    let mut out: Vec<u8> = Vec::new();
    if m.post_id != 0 {
        encode_varint_field(&mut out, 1, m.post_id);
    }
    proof {
        let mv = m@;
        let p1 = u64_piece(1, mv.post_id);
        lemma_enc_u64_piece(1, mv.post_id);
        assert(out@ =~= spec_enc_create_post_response(mv));
    }
    out
}

/// Decodes, exactly as the spec decoder does.
pub fn decode_create_post_response(buf: &Vec<u8>) -> (r: Option<MsgCreatePostResponse>)
    ensures
        match r {
            Some(m) => spec_dec_create_post_response(buf@) == Some(m@),
            None => spec_dec_create_post_response(buf@) is None,
        },
{
    let fs = match decode_fields_from(buf, 0) {
        None => {
            return None;
        },
        Some(fs) => fs,
    };
    let ghost fsv = fs.deep_view();
    let mut m = MsgCreatePostResponse {
        post_id: 0,
    };
    assert(m@ =~= create_post_response_default());
    let mut i: usize = 0;
    while i < fs.len()
        invariant
            0 <= i <= fs.len(),
            fsv == fs.deep_view(),
            m@ == spec_fold_fields(fsv.take(i as int), create_post_response_default(), create_post_response_step()),
        decreases fs.len() - i,
    {
        proof {
            lemma_fold_fields_take_step(fsv, i as int, create_post_response_default(), create_post_response_step());
        }
        let f = &fs[i];
        match &f.val {
            FieldVal::Bytes(_) => {},
            FieldVal::Varint(v) => {
                if f.num == 1 {
                    m.post_id = *v;
                }
            },
        }
        assert(m@ =~= spec_fold_fields(fsv.take(i + 1), create_post_response_default(), create_post_response_step()));
        i = i + 1;
    }
    proof {
        assert(fsv.take(fs.len() as int) =~= fsv);
    }
    Some(m)
}

/// Decoding inverts encoding.
pub proof fn lemma_create_post_response_round_trip(m: MsgCreatePostResponseV)
    ensures
        spec_dec_create_post_response(spec_enc_create_post_response(m)) == Some(m),
{
    let fs = create_post_response_fields(m);
    let p1 = u64_piece(1, m.post_id);
    lemma_u64_piece_wf(1, m.post_id);
    assert(fields_wf(fs));
    lemma_parse_enc_fields(Seq::empty(), fs);
    assert(Seq::<u8>::empty() + spec_enc_fields(fs) =~= spec_enc_fields(fs));
    let d = create_post_response_default();
    let st = create_post_response_step();
    let a1 = spec_fold_fields(p1, d, st);
    if m.post_id != 0 {
        lemma_fold_fields_one(FieldV { num: 1, val: FieldValV::Varint(m.post_id) }, d, st);
    }
    assert(a1 =~= m);
}

// ---------------------------------------------------------------------------
// MsgEditPost
// ---------------------------------------------------------------------------

/// Request to edit an existing post's text.
#[derive(Debug, Clone, PartialEq, Eq)]
pub struct MsgEditPost {
    pub subspace_id: u64,
    pub post_id: u64,
    pub text: Vec<u8>,
    pub editor: Vec<u8>,
}

#[verifier::ext_equal]
pub struct MsgEditPostV {
    pub subspace_id: u64,
    pub post_id: u64,
    pub text: Seq<u8>,
    pub editor: Seq<u8>,
}

impl View for MsgEditPost {
    type V = MsgEditPostV;

    open spec fn view(&self) -> MsgEditPostV {
        MsgEditPostV {
            subspace_id: self.subspace_id,
            post_id: self.post_id,
            text: self.text@,
            editor: self.editor@,
        }
    }
}

pub open spec fn edit_post_fields(m: MsgEditPostV) -> Seq<FieldV> {
    u64_piece(1, m.subspace_id) + u64_piece(2, m.post_id) + bytes_piece(3, m.text) + bytes_piece(6, m.editor)
}

pub open spec fn spec_enc_edit_post(m: MsgEditPostV) -> Seq<u8> {
    spec_enc_fields(edit_post_fields(m))
}

pub open spec fn edit_post_default() -> MsgEditPostV {
    MsgEditPostV {
        subspace_id: 0,
        post_id: 0,
        text: Seq::empty(),
        editor: Seq::empty(),
    }
}

pub open spec fn edit_post_step() -> spec_fn(MsgEditPostV, FieldV) -> MsgEditPostV {
    |acc: MsgEditPostV, f: FieldV|
        match f.val {
            FieldValV::Bytes(b) => {
                if f.num == 3 {
                    MsgEditPostV {
                        subspace_id: acc.subspace_id,
                        post_id: acc.post_id,
                        text: b,
                        editor: acc.editor,
                    }
                } else if f.num == 6 {
                    MsgEditPostV {
                        subspace_id: acc.subspace_id,
                        post_id: acc.post_id,
                        text: acc.text,
                        editor: b,
                    }
                } else {
                    acc
                }
            },
            FieldValV::Varint(v) => {
                if f.num == 1 {
                    MsgEditPostV {
                        subspace_id: v,
                        post_id: acc.post_id,
                        text: acc.text,
                        editor: acc.editor,
                    }
                } else if f.num == 2 {
                    MsgEditPostV {
                        subspace_id: acc.subspace_id,
                        post_id: v,
                        text: acc.text,
                        editor: acc.editor,
                    }
                } else {
                    acc
                }
            },
        }
}

pub open spec fn spec_dec_edit_post(s: Seq<u8>) -> Option<MsgEditPostV> {
    match spec_parse_fields(s, 0) {
        None => None,
        Some(fs) => Some(spec_fold_fields(fs, edit_post_default(), edit_post_step())),
    }
}

/// Canonical encoding, omitting fields that hold their default value.
pub fn encode_edit_post(m: &MsgEditPost) -> (r: Vec<u8>)
    ensures
        r@ == spec_enc_edit_post(m@),
{
    let mut out: Vec<u8> = Vec::new();
    if m.subspace_id != 0 {
        encode_varint_field(&mut out, 1, m.subspace_id);
    }
    if m.post_id != 0 {
        encode_varint_field(&mut out, 2, m.post_id);
    }
    if m.text.len() > 0 {
        encode_bytes_field(&mut out, 3, &m.text);
    }
    if m.editor.len() > 0 {
        encode_bytes_field(&mut out, 6, &m.editor);
    }
    proof {
        let mv = m@;
        let p1 = u64_piece(1, mv.subspace_id);
        let p2 = u64_piece(2, mv.post_id);
        let p3 = bytes_piece(3, mv.text);
        let p4 = bytes_piece(6, mv.editor);
        lemma_enc_fields_concat(p1 + p2 + p3, p4);
        lemma_enc_fields_concat(p1 + p2, p3);
        lemma_enc_fields_concat(p1, p2);
        lemma_enc_u64_piece(1, mv.subspace_id);
        lemma_enc_u64_piece(2, mv.post_id);
        lemma_enc_bytes_piece(3, mv.text);
        lemma_enc_bytes_piece(6, mv.editor);
        assert(out@ =~= spec_enc_edit_post(mv));
    }
    out
}

/// Decodes, exactly as the spec decoder does.
pub fn decode_edit_post(buf: &Vec<u8>) -> (r: Option<MsgEditPost>)
    ensures
        match r {
            Some(m) => spec_dec_edit_post(buf@) == Some(m@),
            None => spec_dec_edit_post(buf@) is None,
        },
{
    let fs = match decode_fields_from(buf, 0) {
        None => {
            return None;
        },
        Some(fs) => fs,
    };
    let ghost fsv = fs.deep_view();
    let mut m = MsgEditPost {
        subspace_id: 0,
        post_id: 0,
        text: Vec::new(),
        editor: Vec::new(),
    };
    assert(m@ =~= edit_post_default());
    let mut i: usize = 0;
    while i < fs.len()
        invariant
            0 <= i <= fs.len(),
            fsv == fs.deep_view(),
            m@ == spec_fold_fields(fsv.take(i as int), edit_post_default(), edit_post_step()),
        decreases fs.len() - i,
    {
        proof {
            lemma_fold_fields_take_step(fsv, i as int, edit_post_default(), edit_post_step());
        }
        let f = &fs[i];
        match &f.val {
            FieldVal::Bytes(b) => {
                if f.num == 3 {
                    m.text = clone_bytes(b);
                } else if f.num == 6 {
                    m.editor = clone_bytes(b);
                }
            },
            FieldVal::Varint(v) => {
                if f.num == 1 {
                    m.subspace_id = *v;
                } else if f.num == 2 {
                    m.post_id = *v;
                }
            },
        }
        assert(m@ =~= spec_fold_fields(fsv.take(i + 1), edit_post_default(), edit_post_step()));
        i = i + 1;
    }
    proof {
        assert(fsv.take(fs.len() as int) =~= fsv);
    }
    Some(m)
}

/// Decoding inverts encoding.
pub proof fn lemma_edit_post_round_trip(m: MsgEditPostV)
    requires
        m.text.len() <= u64::MAX,
        m.editor.len() <= u64::MAX,
    ensures
        spec_dec_edit_post(spec_enc_edit_post(m)) == Some(m),
{
    let fs = edit_post_fields(m);
    let p1 = u64_piece(1, m.subspace_id);
    let p2 = u64_piece(2, m.post_id);
    let p3 = bytes_piece(3, m.text);
    let p4 = bytes_piece(6, m.editor);
    lemma_u64_piece_wf(1, m.subspace_id);
    lemma_u64_piece_wf(2, m.post_id);
    lemma_bytes_piece_wf(3, m.text);
    lemma_bytes_piece_wf(6, m.editor);
    lemma_fields_wf_concat(p1, p2);
    lemma_fields_wf_concat(p1 + p2, p3);
    lemma_fields_wf_concat(p1 + p2 + p3, p4);
    assert(fields_wf(fs));
    lemma_parse_enc_fields(Seq::empty(), fs);
    assert(Seq::<u8>::empty() + spec_enc_fields(fs) =~= spec_enc_fields(fs));
    let d = edit_post_default();
    let st = edit_post_step();
    lemma_fold_fields_concat(p1 + p2 + p3, p4, d, st);
    lemma_fold_fields_concat(p1 + p2, p3, d, st);
    lemma_fold_fields_concat(p1, p2, d, st);
    let a1 = spec_fold_fields(p1, d, st);
    let a2 = spec_fold_fields(p2, a1, st);
    let a3 = spec_fold_fields(p3, a2, st);
    let a4 = spec_fold_fields(p4, a3, st);
    if m.subspace_id != 0 {
        lemma_fold_fields_one(FieldV { num: 1, val: FieldValV::Varint(m.subspace_id) }, d, st);
    }
    if m.post_id != 0 {
        lemma_fold_fields_one(FieldV { num: 2, val: FieldValV::Varint(m.post_id) }, a1, st);
    }
    if m.text.len() > 0 {
        lemma_fold_fields_one(FieldV { num: 3, val: FieldValV::Bytes(m.text) }, a2, st);
    }
    if m.editor.len() > 0 {
        lemma_fold_fields_one(FieldV { num: 6, val: FieldValV::Bytes(m.editor) }, a3, st);
    }
    assert(a4 =~= m);
}

// ---------------------------------------------------------------------------
// MsgDeletePost
// ---------------------------------------------------------------------------

/// Request to delete an existing post.
#[derive(Debug, Clone, PartialEq, Eq)]
pub struct MsgDeletePost {
    pub subspace_id: u64,
    pub post_id: u64,
    pub signer: Vec<u8>,
}

#[verifier::ext_equal]
pub struct MsgDeletePostV {
    pub subspace_id: u64,
    pub post_id: u64,
    pub signer: Seq<u8>,
}

impl View for MsgDeletePost {
    type V = MsgDeletePostV;

    open spec fn view(&self) -> MsgDeletePostV {
        MsgDeletePostV {
            subspace_id: self.subspace_id,
            post_id: self.post_id,
            signer: self.signer@,
        }
    }
}

pub open spec fn delete_post_fields(m: MsgDeletePostV) -> Seq<FieldV> {
    u64_piece(1, m.subspace_id) + u64_piece(2, m.post_id) + bytes_piece(3, m.signer)
}

pub open spec fn spec_enc_delete_post(m: MsgDeletePostV) -> Seq<u8> {
    spec_enc_fields(delete_post_fields(m))
}

pub open spec fn delete_post_default() -> MsgDeletePostV {
    MsgDeletePostV {
        subspace_id: 0,
        post_id: 0,
        signer: Seq::empty(),
    }
}

pub open spec fn delete_post_step() -> spec_fn(MsgDeletePostV, FieldV) -> MsgDeletePostV {
    |acc: MsgDeletePostV, f: FieldV|
        match f.val {
            FieldValV::Bytes(b) => {
                if f.num == 3 {
                    MsgDeletePostV {
                        subspace_id: acc.subspace_id,
                        post_id: acc.post_id,
                        signer: b,
                    }
                } else {
                    acc
                }
            },
            FieldValV::Varint(v) => {
                if f.num == 1 {
                    MsgDeletePostV {
                        subspace_id: v,
                        post_id: acc.post_id,
                        signer: acc.signer,
                    }
                } else if f.num == 2 {
                    MsgDeletePostV {
                        subspace_id: acc.subspace_id,
                        post_id: v,
                        signer: acc.signer,
                    }
                } else {
                    acc
                }
            },
        }
}

pub open spec fn spec_dec_delete_post(s: Seq<u8>) -> Option<MsgDeletePostV> {
    match spec_parse_fields(s, 0) {
        None => None,
        Some(fs) => Some(spec_fold_fields(fs, delete_post_default(), delete_post_step())),
    }
}

/// Canonical encoding, omitting fields that hold their default value.
pub fn encode_delete_post(m: &MsgDeletePost) -> (r: Vec<u8>)
    ensures
        r@ == spec_enc_delete_post(m@),
{
    let mut out: Vec<u8> = Vec::new();
    if m.subspace_id != 0 {
        encode_varint_field(&mut out, 1, m.subspace_id);
    }
    if m.post_id != 0 {
        encode_varint_field(&mut out, 2, m.post_id);
    }
    if m.signer.len() > 0 {
        encode_bytes_field(&mut out, 3, &m.signer);
    }
    proof {
        let mv = m@;
        let p1 = u64_piece(1, mv.subspace_id);
        let p2 = u64_piece(2, mv.post_id);
        let p3 = bytes_piece(3, mv.signer);
        lemma_enc_fields_concat(p1 + p2, p3);
        lemma_enc_fields_concat(p1, p2);
        lemma_enc_u64_piece(1, mv.subspace_id);
        lemma_enc_u64_piece(2, mv.post_id);
        lemma_enc_bytes_piece(3, mv.signer);
        assert(out@ =~= spec_enc_delete_post(mv));
    }
    out
}

/// Decodes, exactly as the spec decoder does.
pub fn decode_delete_post(buf: &Vec<u8>) -> (r: Option<MsgDeletePost>)
    ensures
        match r {
            Some(m) => spec_dec_delete_post(buf@) == Some(m@),
            None => spec_dec_delete_post(buf@) is None,
        },
{
    let fs = match decode_fields_from(buf, 0) {
        None => {
            return None;
        },
        Some(fs) => fs,
    };
    let ghost fsv = fs.deep_view();
    let mut m = MsgDeletePost {
        subspace_id: 0,
        post_id: 0,
        signer: Vec::new(),
    };
    assert(m@ =~= delete_post_default());
    let mut i: usize = 0;
    while i < fs.len()
        invariant
            0 <= i <= fs.len(),
            fsv == fs.deep_view(),
            m@ == spec_fold_fields(fsv.take(i as int), delete_post_default(), delete_post_step()),
        decreases fs.len() - i,
    {
        proof {
            lemma_fold_fields_take_step(fsv, i as int, delete_post_default(), delete_post_step());
        }
        let f = &fs[i];
        match &f.val {
            FieldVal::Bytes(b) => {
                if f.num == 3 {
                    m.signer = clone_bytes(b);
                }
            },
            FieldVal::Varint(v) => {
                if f.num == 1 {
                    m.subspace_id = *v;
                } else if f.num == 2 {
                    m.post_id = *v;
                }
            },
        }
        assert(m@ =~= spec_fold_fields(fsv.take(i + 1), delete_post_default(), delete_post_step()));
        i = i + 1;
    }
    proof {
        assert(fsv.take(fs.len() as int) =~= fsv);
    }
    Some(m)
}

/// Decoding inverts encoding.
pub proof fn lemma_delete_post_round_trip(m: MsgDeletePostV)
    requires
        m.signer.len() <= u64::MAX,
    ensures
        spec_dec_delete_post(spec_enc_delete_post(m)) == Some(m),
{
    let fs = delete_post_fields(m);
    let p1 = u64_piece(1, m.subspace_id);
    let p2 = u64_piece(2, m.post_id);
    let p3 = bytes_piece(3, m.signer);
    lemma_u64_piece_wf(1, m.subspace_id);
    lemma_u64_piece_wf(2, m.post_id);
    lemma_bytes_piece_wf(3, m.signer);
    lemma_fields_wf_concat(p1, p2);
    lemma_fields_wf_concat(p1 + p2, p3);
    assert(fields_wf(fs));
    lemma_parse_enc_fields(Seq::empty(), fs);
    assert(Seq::<u8>::empty() + spec_enc_fields(fs) =~= spec_enc_fields(fs));
    let d = delete_post_default();
    let st = delete_post_step();
    lemma_fold_fields_concat(p1 + p2, p3, d, st);
    lemma_fold_fields_concat(p1, p2, d, st);
    let a1 = spec_fold_fields(p1, d, st);
    let a2 = spec_fold_fields(p2, a1, st);
    let a3 = spec_fold_fields(p3, a2, st);
    if m.subspace_id != 0 {
        lemma_fold_fields_one(FieldV { num: 1, val: FieldValV::Varint(m.subspace_id) }, d, st);
    }
    if m.post_id != 0 {
        lemma_fold_fields_one(FieldV { num: 2, val: FieldValV::Varint(m.post_id) }, a1, st);
    }
    if m.signer.len() > 0 {
        lemma_fold_fields_one(FieldV { num: 3, val: FieldValV::Bytes(m.signer) }, a2, st);
    }
    assert(a3 =~= m);
}

// ---------------------------------------------------------------------------
// Post
// ---------------------------------------------------------------------------

/// A stored post.
#[derive(Debug, Clone, PartialEq, Eq)]
pub struct Post {
    pub subspace_id: u64,
    pub section_id: u32,
    pub id: u64,
    pub text: Vec<u8>,
    pub author: Vec<u8>,
}

#[verifier::ext_equal]
pub struct PostV {
    pub subspace_id: u64,
    pub section_id: u32,
    pub id: u64,
    pub text: Seq<u8>,
    pub author: Seq<u8>,
}

impl View for Post {
    type V = PostV;

    open spec fn view(&self) -> PostV {
        PostV {
            subspace_id: self.subspace_id,
            section_id: self.section_id,
            id: self.id,
            text: self.text@,
            author: self.author@,
        }
    }
}

pub open spec fn post_fields(m: PostV) -> Seq<FieldV> {
    u64_piece(1, m.subspace_id) + u32_piece(2, m.section_id) + u64_piece(3, m.id) + bytes_piece(5, m.text) + bytes_piece(8, m.author)
}

pub open spec fn spec_enc_post(m: PostV) -> Seq<u8> {
    spec_enc_fields(post_fields(m))
}

pub open spec fn post_default() -> PostV {
    PostV {
        subspace_id: 0,
        section_id: 0,
        id: 0,
        text: Seq::empty(),
        author: Seq::empty(),
    }
}

pub open spec fn post_step() -> spec_fn(PostV, FieldV) -> PostV {
    |acc: PostV, f: FieldV|
        match f.val {
            FieldValV::Bytes(b) => {
                if f.num == 5 {
                    PostV {
                        subspace_id: acc.subspace_id,
                        section_id: acc.section_id,
                        id: acc.id,
                        text: b,
                        author: acc.author,
                    }
                } else if f.num == 8 {
                    PostV {
                        subspace_id: acc.subspace_id,
                        section_id: acc.section_id,
                        id: acc.id,
                        text: acc.text,
                        author: b,
                    }
                } else {
                    acc
                }
            },
            FieldValV::Varint(v) => {
                if f.num == 1 {
                    PostV {
                        subspace_id: v,
                        section_id: acc.section_id,
                        id: acc.id,
                        text: acc.text,
                        author: acc.author,
                    }
                } else if f.num == 2 && v <= u32::MAX as u64 {
                    PostV {
                        subspace_id: acc.subspace_id,
                        section_id: v as u32,
                        id: acc.id,
                        text: acc.text,
                        author: acc.author,
                    }
                } else if f.num == 3 {
                    PostV {
                        subspace_id: acc.subspace_id,
                        section_id: acc.section_id,
                        id: v,
                        text: acc.text,
                        author: acc.author,
                    }
                } else {
                    acc
                }
            },
        }
}

pub open spec fn spec_dec_post(s: Seq<u8>) -> Option<PostV> {
    match spec_parse_fields(s, 0) {
        None => None,
        Some(fs) => Some(spec_fold_fields(fs, post_default(), post_step())),
    }
}

/// Canonical encoding, omitting fields that hold their default value.
pub fn encode_post(m: &Post) -> (r: Vec<u8>)
    ensures
        r@ == spec_enc_post(m@),
{
    let mut out: Vec<u8> = Vec::new();
    if m.subspace_id != 0 {
        encode_varint_field(&mut out, 1, m.subspace_id);
    }
    if m.section_id != 0 {
        encode_varint_field(&mut out, 2, m.section_id as u64);
    }
    if m.id != 0 {
        encode_varint_field(&mut out, 3, m.id);
    }
    if m.text.len() > 0 {
        encode_bytes_field(&mut out, 5, &m.text);
    }
    if m.author.len() > 0 {
        encode_bytes_field(&mut out, 8, &m.author);
    }
    proof {
        let mv = m@;
        let p1 = u64_piece(1, mv.subspace_id);
        let p2 = u32_piece(2, mv.section_id);
        let p3 = u64_piece(3, mv.id);
        let p4 = bytes_piece(5, mv.text);
        let p5 = bytes_piece(8, mv.author);
        lemma_enc_fields_concat(p1 + p2 + p3 + p4, p5);
        lemma_enc_fields_concat(p1 + p2 + p3, p4);
        lemma_enc_fields_concat(p1 + p2, p3);
        lemma_enc_fields_concat(p1, p2);
        lemma_enc_u64_piece(1, mv.subspace_id);
        lemma_enc_u32_piece(2, mv.section_id);
        lemma_enc_u64_piece(3, mv.id);
        lemma_enc_bytes_piece(5, mv.text);
        lemma_enc_bytes_piece(8, mv.author);
        assert(out@ =~= spec_enc_post(mv));
    }
    out
}

/// Decodes, exactly as the spec decoder does.
pub fn decode_post(buf: &Vec<u8>) -> (r: Option<Post>)
    ensures
        match r {
            Some(m) => spec_dec_post(buf@) == Some(m@),
            None => spec_dec_post(buf@) is None,
        },
{
    let fs = match decode_fields_from(buf, 0) {
        None => {
            return None;
        },
        Some(fs) => fs,
    };
    let ghost fsv = fs.deep_view();
    let mut m = Post {
        subspace_id: 0,
        section_id: 0,
        id: 0,
        text: Vec::new(),
        author: Vec::new(),
    };
    assert(m@ =~= post_default());
    let mut i: usize = 0;
    while i < fs.len()
        invariant
            0 <= i <= fs.len(),
            fsv == fs.deep_view(),
            m@ == spec_fold_fields(fsv.take(i as int), post_default(), post_step()),
        decreases fs.len() - i,
    {
        proof {
            lemma_fold_fields_take_step(fsv, i as int, post_default(), post_step());
        }
        let f = &fs[i];
        match &f.val {
            FieldVal::Bytes(b) => {
                if f.num == 5 {
                    m.text = clone_bytes(b);
                } else if f.num == 8 {
                    m.author = clone_bytes(b);
                }
            },
            FieldVal::Varint(v) => {
                if f.num == 1 {
                    m.subspace_id = *v;
                } else if f.num == 2 && *v <= u32::MAX as u64 {
                    m.section_id = *v as u32;
                } else if f.num == 3 {
                    m.id = *v;
                }
            },
        }
        assert(m@ =~= spec_fold_fields(fsv.take(i + 1), post_default(), post_step()));
        i = i + 1;
    }
    proof {
        assert(fsv.take(fs.len() as int) =~= fsv);
    }
    Some(m)
}

/// Decoding inverts encoding.
pub proof fn lemma_post_round_trip(m: PostV)
    requires
        m.text.len() <= u64::MAX,
        m.author.len() <= u64::MAX,
    ensures
        spec_dec_post(spec_enc_post(m)) == Some(m),
{
    let fs = post_fields(m);
    let p1 = u64_piece(1, m.subspace_id);
    let p2 = u32_piece(2, m.section_id);
    let p3 = u64_piece(3, m.id);
    let p4 = bytes_piece(5, m.text);
    let p5 = bytes_piece(8, m.author);
    lemma_u64_piece_wf(1, m.subspace_id);
    lemma_u32_piece_wf(2, m.section_id);
    lemma_u64_piece_wf(3, m.id);
    lemma_bytes_piece_wf(5, m.text);
    lemma_bytes_piece_wf(8, m.author);
    lemma_fields_wf_concat(p1, p2);
    lemma_fields_wf_concat(p1 + p2, p3);
    lemma_fields_wf_concat(p1 + p2 + p3, p4);
    lemma_fields_wf_concat(p1 + p2 + p3 + p4, p5);
    assert(fields_wf(fs));
    lemma_parse_enc_fields(Seq::empty(), fs);
    assert(Seq::<u8>::empty() + spec_enc_fields(fs) =~= spec_enc_fields(fs));
    let d = post_default();
    let st = post_step();
    lemma_fold_fields_concat(p1 + p2 + p3 + p4, p5, d, st);
    lemma_fold_fields_concat(p1 + p2 + p3, p4, d, st);
    lemma_fold_fields_concat(p1 + p2, p3, d, st);
    lemma_fold_fields_concat(p1, p2, d, st);
    let a1 = spec_fold_fields(p1, d, st);
    let a2 = spec_fold_fields(p2, a1, st);
    let a3 = spec_fold_fields(p3, a2, st);
    let a4 = spec_fold_fields(p4, a3, st);
    let a5 = spec_fold_fields(p5, a4, st);
    if m.subspace_id != 0 {
        lemma_fold_fields_one(FieldV { num: 1, val: FieldValV::Varint(m.subspace_id) }, d, st);
    }
    if m.section_id != 0 {
        lemma_fold_fields_one(FieldV { num: 2, val: FieldValV::Varint(m.section_id as u64) }, a1, st);
    }
    if m.id != 0 {
        lemma_fold_fields_one(FieldV { num: 3, val: FieldValV::Varint(m.id) }, a2, st);
    }
    if m.text.len() > 0 {
        lemma_fold_fields_one(FieldV { num: 5, val: FieldValV::Bytes(m.text) }, a3, st);
    }
    if m.author.len() > 0 {
        lemma_fold_fields_one(FieldV { num: 8, val: FieldValV::Bytes(m.author) }, a4, st);
    }
    assert(a5 =~= m);
}

// ---------------------------------------------------------------------------
// QueryPostRequest
// ---------------------------------------------------------------------------

/// Query for one post by subspace and post id.
#[derive(Debug, Clone, PartialEq, Eq)]
pub struct QueryPostRequest {
    pub subspace_id: u64,
    pub post_id: u64,
}

#[verifier::ext_equal]
pub struct QueryPostRequestV {
    pub subspace_id: u64,
    pub post_id: u64,
}

impl View for QueryPostRequest {
    type V = QueryPostRequestV;

    open spec fn view(&self) -> QueryPostRequestV {
        QueryPostRequestV {
            subspace_id: self.subspace_id,
            post_id: self.post_id,
        }
    }
}

pub open spec fn query_post_request_fields(m: QueryPostRequestV) -> Seq<FieldV> {
    u64_piece(1, m.subspace_id) + u64_piece(2, m.post_id)
}

pub open spec fn spec_enc_query_post_request(m: QueryPostRequestV) -> Seq<u8> {
    spec_enc_fields(query_post_request_fields(m))
}

pub open spec fn query_post_request_default() -> QueryPostRequestV {
    QueryPostRequestV {
        subspace_id: 0,
        post_id: 0,
    }
}

pub open spec fn query_post_request_step() -> spec_fn(QueryPostRequestV, FieldV) -> QueryPostRequestV {
    |acc: QueryPostRequestV, f: FieldV|
        match f.val {
            FieldValV::Bytes(_) => acc,
            FieldValV::Varint(v) => {
                if f.num == 1 {
                    QueryPostRequestV {
                        subspace_id: v,
                        post_id: acc.post_id,
                    }
                } else if f.num == 2 {
                    QueryPostRequestV {
                        subspace_id: acc.subspace_id,
                        post_id: v,
                    }
                } else {
                    acc
                }
            },
        }
}

pub open spec fn spec_dec_query_post_request(s: Seq<u8>) -> Option<QueryPostRequestV> {
    match spec_parse_fields(s, 0) {
        None => None,
        Some(fs) => Some(spec_fold_fields(fs, query_post_request_default(), query_post_request_step())),
    }
}

/// Canonical encoding, omitting fields that hold their default value.
pub fn encode_query_post_request(m: &QueryPostRequest) -> (r: Vec<u8>)
    ensures
        r@ == spec_enc_query_post_request(m@),
{
    let mut out: Vec<u8> = Vec::new();
    if m.subspace_id != 0 {
        encode_varint_field(&mut out, 1, m.subspace_id);
    }
    if m.post_id != 0 {
        encode_varint_field(&mut out, 2, m.post_id);
    }
    proof {
        let mv = m@;
        let p1 = u64_piece(1, mv.subspace_id);
        let p2 = u64_piece(2, mv.post_id);
        lemma_enc_fields_concat(p1, p2);
        lemma_enc_u64_piece(1, mv.subspace_id);
        lemma_enc_u64_piece(2, mv.post_id);
        assert(out@ =~= spec_enc_query_post_request(mv));
    }
    out
}

/// Decodes, exactly as the spec decoder does.
pub fn decode_query_post_request(buf: &Vec<u8>) -> (r: Option<QueryPostRequest>)
    ensures
        match r {
            Some(m) => spec_dec_query_post_request(buf@) == Some(m@),
            None => spec_dec_query_post_request(buf@) is None,
        },
{
    let fs = match decode_fields_from(buf, 0) {
        None => {
            return None;
        },
        Some(fs) => fs,
    };
    let ghost fsv = fs.deep_view();
    let mut m = QueryPostRequest {
        subspace_id: 0,
        post_id: 0,
    };
    assert(m@ =~= query_post_request_default());
    let mut i: usize = 0;
    while i < fs.len()
        invariant
            0 <= i <= fs.len(),
            fsv == fs.deep_view(),
            m@ == spec_fold_fields(fsv.take(i as int), query_post_request_default(), query_post_request_step()),
        decreases fs.len() - i,
    {
        proof {
            lemma_fold_fields_take_step(fsv, i as int, query_post_request_default(), query_post_request_step());
        }
        let f = &fs[i];
        match &f.val {
            FieldVal::Bytes(_) => {},
            FieldVal::Varint(v) => {
                if f.num == 1 {
                    m.subspace_id = *v;
                } else if f.num == 2 {
                    m.post_id = *v;
                }
            },
        }
        assert(m@ =~= spec_fold_fields(fsv.take(i + 1), query_post_request_default(), query_post_request_step()));
        i = i + 1;
    }
    proof {
        assert(fsv.take(fs.len() as int) =~= fsv);
    }
    Some(m)
}

/// Decoding inverts encoding.
pub proof fn lemma_query_post_request_round_trip(m: QueryPostRequestV)
    ensures
        spec_dec_query_post_request(spec_enc_query_post_request(m)) == Some(m),
{
    let fs = query_post_request_fields(m);
    let p1 = u64_piece(1, m.subspace_id);
    let p2 = u64_piece(2, m.post_id);
    lemma_u64_piece_wf(1, m.subspace_id);
    lemma_u64_piece_wf(2, m.post_id);
    lemma_fields_wf_concat(p1, p2);
    assert(fields_wf(fs));
    lemma_parse_enc_fields(Seq::empty(), fs);
    assert(Seq::<u8>::empty() + spec_enc_fields(fs) =~= spec_enc_fields(fs));
    let d = query_post_request_default();
    let st = query_post_request_step();
    lemma_fold_fields_concat(p1, p2, d, st);
    let a1 = spec_fold_fields(p1, d, st);
    let a2 = spec_fold_fields(p2, a1, st);
    if m.subspace_id != 0 {
        lemma_fold_fields_one(FieldV { num: 1, val: FieldValV::Varint(m.subspace_id) }, d, st);
    }
    if m.post_id != 0 {
        lemma_fold_fields_one(FieldV { num: 2, val: FieldValV::Varint(m.post_id) }, a1, st);
    }
    assert(a2 =~= m);
}

// ---------------------------------------------------------------------------
// QuerySubspacePostsRequest
// ---------------------------------------------------------------------------

/// Query for every post stored in one subspace.
#[derive(Debug, Clone, PartialEq, Eq)]
pub struct QuerySubspacePostsRequest {
    pub subspace_id: u64,
}

#[verifier::ext_equal]
pub struct QuerySubspacePostsRequestV {
    pub subspace_id: u64,
}

impl View for QuerySubspacePostsRequest {
    type V = QuerySubspacePostsRequestV;

    open spec fn view(&self) -> QuerySubspacePostsRequestV {
        QuerySubspacePostsRequestV {
            subspace_id: self.subspace_id,
        }
    }
}

pub open spec fn query_subspace_posts_request_fields(m: QuerySubspacePostsRequestV) -> Seq<FieldV> {
    u64_piece(1, m.subspace_id)
}

pub open spec fn spec_enc_query_subspace_posts_request(m: QuerySubspacePostsRequestV) -> Seq<u8> {
    spec_enc_fields(query_subspace_posts_request_fields(m))
}

pub open spec fn query_subspace_posts_request_default() -> QuerySubspacePostsRequestV {
    QuerySubspacePostsRequestV {
        subspace_id: 0,
    }
}

pub open spec fn query_subspace_posts_request_step() -> spec_fn(QuerySubspacePostsRequestV, FieldV) -> QuerySubspacePostsRequestV {
    |acc: QuerySubspacePostsRequestV, f: FieldV|
        match f.val {
            FieldValV::Bytes(_) => acc,
            FieldValV::Varint(v) => {
                if f.num == 1 {
                    QuerySubspacePostsRequestV {
                        subspace_id: v,
                    }
                } else {
                    acc
                }
            },
        }
}

pub open spec fn spec_dec_query_subspace_posts_request(s: Seq<u8>) -> Option<QuerySubspacePostsRequestV> {
    match spec_parse_fields(s, 0) {
        None => None,
        Some(fs) => Some(spec_fold_fields(fs, query_subspace_posts_request_default(), query_subspace_posts_request_step())),
    }
}

/// Canonical encoding, omitting fields that hold their default value.
pub fn encode_query_subspace_posts_request(m: &QuerySubspacePostsRequest) -> (r: Vec<u8>)
    ensures
        r@ == spec_enc_query_subspace_posts_request(m@),
{
    let mut out: Vec<u8> = Vec::new();
    if m.subspace_id != 0 {
        encode_varint_field(&mut out, 1, m.subspace_id);
    }
    proof {
        let mv = m@;
        let p1 = u64_piece(1, mv.subspace_id);
        lemma_enc_u64_piece(1, mv.subspace_id);
        assert(out@ =~= spec_enc_query_subspace_posts_request(mv));
    }
    out
}

/// Decodes, exactly as the spec decoder does.
pub fn decode_query_subspace_posts_request(buf: &Vec<u8>) -> (r: Option<QuerySubspacePostsRequest>)
    ensures
        match r {
            Some(m) => spec_dec_query_subspace_posts_request(buf@) == Some(m@),
            None => spec_dec_query_subspace_posts_request(buf@) is None,
        },
{
    let fs = match decode_fields_from(buf, 0) {
        None => {
            return None;
        },
        Some(fs) => fs,
    };
    let ghost fsv = fs.deep_view();
    let mut m = QuerySubspacePostsRequest {
        subspace_id: 0,
    };
    assert(m@ =~= query_subspace_posts_request_default());
    let mut i: usize = 0;
    while i < fs.len()
        invariant
            0 <= i <= fs.len(),
            fsv == fs.deep_view(),
            m@ == spec_fold_fields(fsv.take(i as int), query_subspace_posts_request_default(), query_subspace_posts_request_step()),
        decreases fs.len() - i,
    {
        proof {
            lemma_fold_fields_take_step(fsv, i as int, query_subspace_posts_request_default(), query_subspace_posts_request_step());
        }
        let f = &fs[i];
        match &f.val {
            FieldVal::Bytes(_) => {},
            FieldVal::Varint(v) => {
                if f.num == 1 {
                    m.subspace_id = *v;
                }
            },
        }
        assert(m@ =~= spec_fold_fields(fsv.take(i + 1), query_subspace_posts_request_default(), query_subspace_posts_request_step()));
        i = i + 1;
    }
    proof {
        assert(fsv.take(fs.len() as int) =~= fsv);
    }
    Some(m)
}

/// Decoding inverts encoding.
pub proof fn lemma_query_subspace_posts_request_round_trip(m: QuerySubspacePostsRequestV)
    ensures
        spec_dec_query_subspace_posts_request(spec_enc_query_subspace_posts_request(m)) == Some(m),
{
    let fs = query_subspace_posts_request_fields(m);
    let p1 = u64_piece(1, m.subspace_id);
    lemma_u64_piece_wf(1, m.subspace_id);
    assert(fields_wf(fs));
    lemma_parse_enc_fields(Seq::empty(), fs);
    assert(Seq::<u8>::empty() + spec_enc_fields(fs) =~= spec_enc_fields(fs));
    let d = query_subspace_posts_request_default();
    let st = query_subspace_posts_request_step();
    let a1 = spec_fold_fields(p1, d, st);
    if m.subspace_id != 0 {
        lemma_fold_fields_one(FieldV { num: 1, val: FieldValV::Varint(m.subspace_id) }, d, st);
    }
    assert(a1 =~= m);
}

// ---------------------------------------------------------------------------
// MsgEditPostResponse
// ---------------------------------------------------------------------------

/// Response to an edit-post request; carries nothing.
#[derive(Debug, Clone, PartialEq, Eq)]
pub struct MsgEditPostResponse {}

#[verifier::ext_equal]
pub struct MsgEditPostResponseV {}

impl View for MsgEditPostResponse {
    type V = MsgEditPostResponseV;

    open spec fn view(&self) -> MsgEditPostResponseV {
        MsgEditPostResponseV {}
    }
}

pub open spec fn spec_enc_edit_post_response(m: MsgEditPostResponseV) -> Seq<u8> {
    spec_enc_fields(Seq::empty())
}

pub open spec fn spec_dec_edit_post_response(s: Seq<u8>) -> Option<MsgEditPostResponseV> {
    match spec_parse_fields(s, 0) {
        None => None,
        Some(_) => Some(MsgEditPostResponseV {}),
    }
}

/// Canonical encoding: an empty message has no bytes at all.
pub fn encode_edit_post_response(m: &MsgEditPostResponse) -> (r: Vec<u8>)
    ensures
        r@ == spec_enc_edit_post_response(m@),
{
    let out: Vec<u8> = Vec::new();
    assert(out@ =~= spec_enc_fields(Seq::empty()));
    out
}

/// Decodes, exactly as the spec decoder does.
pub fn decode_edit_post_response(buf: &Vec<u8>) -> (r: Option<MsgEditPostResponse>)
    ensures
        match r {
            Some(m) => spec_dec_edit_post_response(buf@) == Some(m@),
            None => spec_dec_edit_post_response(buf@) is None,
        },
{
    match decode_fields_from(buf, 0) {
        None => None,
        Some(_) => Some(MsgEditPostResponse {}),
    }
}

/// Decoding inverts encoding.
pub proof fn lemma_edit_post_response_round_trip(m: MsgEditPostResponseV)
    ensures
        spec_dec_edit_post_response(spec_enc_edit_post_response(m)) == Some(m),
{
    lemma_parse_enc_fields(Seq::empty(), Seq::empty());
    assert(Seq::<u8>::empty() + spec_enc_fields(Seq::empty()) =~= spec_enc_fields(Seq::empty()));
    assert(m =~= MsgEditPostResponseV {});
}

// ---------------------------------------------------------------------------
// MsgDeletePostResponse
// ---------------------------------------------------------------------------

/// Response to a delete-post request; carries nothing.
#[derive(Debug, Clone, PartialEq, Eq)]
pub struct MsgDeletePostResponse {}

#[verifier::ext_equal]
pub struct MsgDeletePostResponseV {}

impl View for MsgDeletePostResponse {
    type V = MsgDeletePostResponseV;

    open spec fn view(&self) -> MsgDeletePostResponseV {
        MsgDeletePostResponseV {}
    }
}

pub open spec fn spec_enc_delete_post_response(m: MsgDeletePostResponseV) -> Seq<u8> {
    spec_enc_fields(Seq::empty())
}

pub open spec fn spec_dec_delete_post_response(s: Seq<u8>) -> Option<MsgDeletePostResponseV> {
    match spec_parse_fields(s, 0) {
        None => None,
        Some(_) => Some(MsgDeletePostResponseV {}),
    }
}

/// Canonical encoding: an empty message has no bytes at all.
pub fn encode_delete_post_response(m: &MsgDeletePostResponse) -> (r: Vec<u8>)
    ensures
        r@ == spec_enc_delete_post_response(m@),
{
    let out: Vec<u8> = Vec::new();
    assert(out@ =~= spec_enc_fields(Seq::empty()));
    out
}

/// Decodes, exactly as the spec decoder does.
pub fn decode_delete_post_response(buf: &Vec<u8>) -> (r: Option<MsgDeletePostResponse>)
    ensures
        match r {
            Some(m) => spec_dec_delete_post_response(buf@) == Some(m@),
            None => spec_dec_delete_post_response(buf@) is None,
        },
{
    match decode_fields_from(buf, 0) {
        None => None,
        Some(_) => Some(MsgDeletePostResponse {}),
    }
}

/// Decoding inverts encoding.
pub proof fn lemma_delete_post_response_round_trip(m: MsgDeletePostResponseV)
    ensures
        spec_dec_delete_post_response(spec_enc_delete_post_response(m)) == Some(m),
{
    lemma_parse_enc_fields(Seq::empty(), Seq::empty());
    assert(Seq::<u8>::empty() + spec_enc_fields(Seq::empty()) =~= spec_enc_fields(Seq::empty()));
    assert(m =~= MsgDeletePostResponseV {});
}

// ---------------------------------------------------------------------------
// QueryPostResponse
// ---------------------------------------------------------------------------

/// Response to a post query, carrying the queried post.
///
/// The post is always present: a query for an id the chain does not hold surfaces as a query error, never as an empty response.
#[derive(Debug, Clone, PartialEq, Eq)]
pub struct QueryPostResponse {
    pub post: Post,
}

#[verifier::ext_equal]
pub struct QueryPostResponseV {
    pub post: PostV,
}

impl View for QueryPostResponse {
    type V = QueryPostResponseV;

    open spec fn view(&self) -> QueryPostResponseV {
        QueryPostResponseV { post: self.post@ }
    }
}

pub open spec fn spec_enc_query_post_response(m: QueryPostResponseV) -> Seq<u8> {
    spec_enc_fields(msg_piece(1, spec_enc_post(m.post)))
}

/// Collects the body of the embedded message: the last occurrence wins.
pub open spec fn query_post_response_body_step() -> spec_fn(Option<Seq<u8>>, FieldV) -> Option<Seq<u8>> {
    |acc: Option<Seq<u8>>, f: FieldV|
        match f.val {
            FieldValV::Bytes(b) => if f.num == 1 {
                Some(b)
            } else {
                acc
            },
            FieldValV::Varint(_) => acc,
        }
}

pub open spec fn spec_dec_query_post_response(s: Seq<u8>) -> Option<QueryPostResponseV> {
    match spec_parse_fields(s, 0) {
        None => None,
        Some(fs) => match spec_fold_fields(fs, None, query_post_response_body_step()) {
            None => None,
            Some(b) => match spec_dec_post(b) {
                None => None,
                Some(e) => Some(QueryPostResponseV { post: e }),
            },
        },
    }
}

/// Canonical encoding: the embedded message is always written.
pub fn encode_query_post_response(m: &QueryPostResponse) -> (r: Vec<u8>)
    ensures
        r@ == spec_enc_query_post_response(m@),
{
    let body = encode_post(&m.post);
    let mut out: Vec<u8> = Vec::new();
    encode_bytes_field(&mut out, 1, &body);
    proof {
        lemma_enc_msg_piece(1, spec_enc_post(m@.post));
        assert(out@ =~= spec_enc_query_post_response(m@));
    }
    out
}

/// Decodes, exactly as the spec decoder does.
pub fn decode_query_post_response(buf: &Vec<u8>) -> (r: Option<QueryPostResponse>)
    ensures
        match r {
            Some(m) => spec_dec_query_post_response(buf@) == Some(m@),
            None => spec_dec_query_post_response(buf@) is None,
        },
{
    let fs = match decode_fields_from(buf, 0) {
        None => {
            return None;
        },
        Some(fs) => fs,
    };
    let ghost fsv = fs.deep_view();
    let mut body: Option<Vec<u8>> = None;
    let mut i: usize = 0;
    while i < fs.len()
        invariant
            0 <= i <= fs.len(),
            fsv == fs.deep_view(),
            body.deep_view() == spec_fold_fields(fsv.take(i as int), None::<Seq<u8>>, query_post_response_body_step()),
        decreases fs.len() - i,
    {
        proof {
            lemma_fold_fields_take_step(fsv, i as int, None::<Seq<u8>>, query_post_response_body_step());
        }
        let f = &fs[i];
        match &f.val {
            FieldVal::Bytes(b) => {
                if f.num == 1 {
                    body = Some(clone_bytes(b));
                }
            },
            FieldVal::Varint(_) => {},
        }
        assert(body.deep_view() =~= spec_fold_fields(
            fsv.take(i + 1),
            None::<Seq<u8>>,
            query_post_response_body_step(),
        ));
        i = i + 1;
    }
    proof {
        assert(fsv.take(fs.len() as int) =~= fsv);
    }
    match body {
        None => None,
        Some(b) => {
            proof {
                assert(b.deep_view() =~= b@);
            }
            match decode_post(&b) {
                None => None,
                Some(e) => Some(QueryPostResponse { post: e }),
            }
        },
    }
}

/// Decoding inverts encoding whenever the embedded message fits its
/// length prefix.
pub proof fn lemma_query_post_response_round_trip(m: QueryPostResponseV)
    requires
        spec_enc_post(m.post).len() <= u64::MAX,
        m.post.text.len() <= u64::MAX,
        m.post.author.len() <= u64::MAX,
    ensures
        spec_dec_query_post_response(spec_enc_query_post_response(m)) == Some(m),
{
    let body = spec_enc_post(m.post);
    lemma_msg_piece_wf(1, body);
    lemma_parse_enc_fields(Seq::empty(), msg_piece(1, body));
    assert(Seq::<u8>::empty() + spec_enc_fields(msg_piece(1, body)) =~= spec_enc_fields(
        msg_piece(1, body),
    ));
    lemma_fold_fields_one(
        FieldV { num: 1, val: FieldValV::Bytes(body) },
        None::<Seq<u8>>,
        query_post_response_body_step(),
    );
    lemma_post_round_trip(m.post);
    assert(QueryPostResponseV { post: m.post } =~= m);
}


impl DeepView for Post {
    type V = PostV;

    open spec fn deep_view(&self) -> PostV {
        self.view()
    }
}

/// A post as the chain stores it: text and author within the chain's
/// field-length limit.
pub open spec fn post_v_wf(p: PostV) -> bool {
    &&& p.text.len() <= MAX_TEXT_LEN
    &&& p.author.len() <= MAX_TEXT_LEN
}

/// A stored post's encoding stays well inside its length prefix.
pub proof fn lemma_enc_post_len(p: PostV)
    requires
        post_v_wf(p),
    ensures
        spec_enc_post(p).len() <= 0x30000,
{
    let p1 = u64_piece(1, p.subspace_id);
    let p2 = u32_piece(2, p.section_id);
    let p3 = u64_piece(3, p.id);
    let p4 = bytes_piece(5, p.text);
    let p5 = bytes_piece(8, p.author);
    lemma_enc_fields_concat(p1 + p2 + p3 + p4, p5);
    lemma_enc_fields_concat(p1 + p2 + p3, p4);
    lemma_enc_fields_concat(p1 + p2, p3);
    lemma_enc_fields_concat(p1, p2);
    lemma_enc_u64_piece(1, p.subspace_id);
    lemma_enc_u32_piece(2, p.section_id);
    lemma_enc_u64_piece(3, p.id);
    lemma_enc_bytes_piece(5, p.text);
    lemma_enc_bytes_piece(8, p.author);
    if p.subspace_id != 0 {
        lemma_enc_field_len(FieldV { num: 1, val: FieldValV::Varint(p.subspace_id) });
    }
    if p.section_id != 0 {
        lemma_enc_field_len(FieldV { num: 2, val: FieldValV::Varint(p.section_id as u64) });
    }
    if p.id != 0 {
        lemma_enc_field_len(FieldV { num: 3, val: FieldValV::Varint(p.id) });
    }
    if p.text.len() > 0 {
        lemma_enc_field_len(FieldV { num: 5, val: FieldValV::Bytes(p.text) });
    }
    if p.author.len() > 0 {
        lemma_enc_field_len(FieldV { num: 8, val: FieldValV::Bytes(p.author) });
    }
}

// ---------------------------------------------------------------------------
// QuerySubspacePostsResponse
// ---------------------------------------------------------------------------

/// Response to a subspace-posts query: every post of the subspace, in
/// storage order.
///
/// A subspace without posts yields an empty list, never an error.
#[derive(Debug, Clone, PartialEq, Eq)]
pub struct QuerySubspacePostsResponse {
    pub posts: Vec<Post>,
}

#[verifier::ext_equal]
pub struct QuerySubspacePostsResponseV {
    pub posts: Seq<PostV>,
}

impl View for QuerySubspacePostsResponse {
    type V = QuerySubspacePostsResponseV;

    open spec fn view(&self) -> QuerySubspacePostsResponseV {
        QuerySubspacePostsResponseV { posts: self.posts.deep_view() }
    }
}

/// One embedded-message field per post, in order.
pub open spec fn posts_list_fields(ps: Seq<PostV>) -> Seq<FieldV>
    decreases ps.len(),
{
    if ps.len() == 0 {
        Seq::empty()
    } else {
        msg_piece(1, spec_enc_post(ps[0])) + posts_list_fields(ps.skip(1))
    }
}

pub proof fn lemma_posts_list_fields_push(ps: Seq<PostV>, p: PostV)
    ensures
        posts_list_fields(ps.push(p)) == posts_list_fields(ps) + msg_piece(1, spec_enc_post(p)),
    decreases ps.len(),
{
    if ps.len() == 0 {
        assert(ps.push(p)[0] == p);
        assert(ps.push(p).skip(1) =~= Seq::<PostV>::empty());
        assert(posts_list_fields(Seq::<PostV>::empty()) == Seq::<FieldV>::empty());
        assert(msg_piece(1, spec_enc_post(p)) + Seq::<FieldV>::empty() =~= msg_piece(
            1,
            spec_enc_post(p),
        ));
        assert(posts_list_fields(ps) + msg_piece(1, spec_enc_post(p)) =~= msg_piece(
            1,
            spec_enc_post(p),
        ));
    } else {
        assert(ps.push(p)[0] == ps[0]);
        assert(ps.push(p).skip(1) =~= ps.skip(1).push(p));
        lemma_posts_list_fields_push(ps.skip(1), p);
        assert(posts_list_fields(ps.push(p)) =~= posts_list_fields(ps) + msg_piece(
            1,
            spec_enc_post(p),
        ));
    }
}

pub open spec fn spec_enc_query_subspace_posts_response(m: QuerySubspacePostsResponseV) -> Seq<
    u8,
> {
    spec_enc_fields(posts_list_fields(m.posts))
}

/// Collects the bodies of the repeated embedded message, in order.
pub open spec fn post_bodies_step() -> spec_fn(Seq<Seq<u8>>, FieldV) -> Seq<Seq<u8>> {
    |acc: Seq<Seq<u8>>, f: FieldV|
        match f.val {
            FieldValV::Bytes(b) => if f.num == 1 {
                acc.push(b)
            } else {
                acc
            },
            FieldValV::Varint(_) => acc,
        }
}

pub open spec fn spec_dec_post_list(bs: Seq<Seq<u8>>) -> Option<Seq<PostV>>
    decreases bs.len(),
{
    if bs.len() == 0 {
        Some(Seq::empty())
    } else {
        match spec_dec_post(bs[0]) {
            None => None,
            Some(p) => match spec_dec_post_list(bs.skip(1)) {
                None => None,
                Some(ps) => Some(seq![p] + ps),
            },
        }
    }
}

pub open spec fn spec_dec_query_subspace_posts_response(s: Seq<u8>) -> Option<
    QuerySubspacePostsResponseV,
> {
    match spec_parse_fields(s, 0) {
        None => None,
        Some(fs) => match spec_dec_post_list(
            spec_fold_fields(fs, Seq::empty(), post_bodies_step()),
        ) {
            None => None,
            Some(ps) => Some(QuerySubspacePostsResponseV { posts: ps }),
        },
    }
}

/// Canonical encoding: one embedded-message field per post, in order.
pub fn encode_query_subspace_posts_response(m: &QuerySubspacePostsResponse) -> (r: Vec<u8>)
    ensures
        r@ == spec_enc_query_subspace_posts_response(m@),
{
    let mut out: Vec<u8> = Vec::new();
    let mut i: usize = 0;
    while i < m.posts.len()
        invariant
            0 <= i <= m.posts.len(),
            out@ == spec_enc_fields(posts_list_fields(m.posts.deep_view().take(i as int))),
        decreases m.posts.len() - i,
    {
        let ghost psv = m.posts.deep_view();
        let body = encode_post(&m.posts[i]);
        proof {
            assert(psv[i as int] == m.posts[i as int]@);
        }
        encode_bytes_field(&mut out, 1, &body);
        proof {
            assert(psv.take(i + 1) =~= psv.take(i as int).push(psv[i as int]));
            lemma_posts_list_fields_push(psv.take(i as int), psv[i as int]);
            lemma_enc_fields_concat(
                posts_list_fields(psv.take(i as int)),
                msg_piece(1, spec_enc_post(psv[i as int])),
            );
            lemma_enc_msg_piece(1, spec_enc_post(psv[i as int]));
            assert(out@ =~= spec_enc_fields(posts_list_fields(psv.take(i + 1))));
        }
        i = i + 1;
    }
    proof {
        assert(m.posts.deep_view().take(m.posts.len() as int) =~= m.posts.deep_view());
    }
    out
}

/// Decodes, exactly as the spec decoder does.
pub fn decode_query_subspace_posts_response(buf: &Vec<u8>) -> (r: Option<
    QuerySubspacePostsResponse,
>)
    ensures
        match r {
            Some(m) => spec_dec_query_subspace_posts_response(buf@) == Some(m@),
            None => spec_dec_query_subspace_posts_response(buf@) is None,
        },
{
    let fs = match decode_fields_from(buf, 0) {
        None => {
            return None;
        },
        Some(fs) => fs,
    };
    let ghost fsv = fs.deep_view();
    let mut bodies: Vec<Vec<u8>> = Vec::new();
    assert(bodies.deep_view() =~= Seq::<Seq<u8>>::empty());
    let mut i: usize = 0;
    while i < fs.len()
        invariant
            0 <= i <= fs.len(),
            fsv == fs.deep_view(),
            bodies.deep_view() == spec_fold_fields(
                fsv.take(i as int),
                Seq::<Seq<u8>>::empty(),
                post_bodies_step(),
            ),
        decreases fs.len() - i,
    {
        proof {
            lemma_fold_fields_take_step(
                fsv,
                i as int,
                Seq::<Seq<u8>>::empty(),
                post_bodies_step(),
            );
        }
        let f = &fs[i];
        match &f.val {
            FieldVal::Bytes(b) => {
                if f.num == 1 {
                    bodies.push(clone_bytes(b));
                }
            },
            FieldVal::Varint(_) => {},
        }
        assert(bodies.deep_view() =~~= spec_fold_fields(
            fsv.take(i + 1),
            Seq::<Seq<u8>>::empty(),
            post_bodies_step(),
        ));
        i = i + 1;
    }
    proof {
        assert(fsv.take(fs.len() as int) =~= fsv);
    }
    let ghost bsv = bodies.deep_view();
    assert(spec_parse_fields(buf@, 0) == Some(fsv));
    assert(bsv == spec_fold_fields(fsv, Seq::<Seq<u8>>::empty(), post_bodies_step()));
    let mut posts: Vec<Post> = Vec::new();
    assert(bsv.skip(0) =~= bsv);
    assert(posts.deep_view() =~= Seq::<PostV>::empty());
    let mut j: usize = 0;
    while j < bodies.len()
        invariant
            0 <= j <= bodies.len(),
            bsv == bodies.deep_view(),
            spec_parse_fields(buf@, 0) == Some(fsv),
            bsv == spec_fold_fields(fsv, Seq::<Seq<u8>>::empty(), post_bodies_step()),
            spec_dec_post_list(bsv) == (match spec_dec_post_list(bsv.skip(j as int)) {
                None => None::<Seq<PostV>>,
                Some(rest) => Some(posts.deep_view() + rest),
            }),
        decreases bodies.len() - j,
    {
        proof {
            assert(bsv.skip(j as int)[0] == bsv[j as int]);
            assert(bsv.skip(j as int).skip(1) =~= bsv.skip(j + 1));
            assert(bodies[j as int].deep_view() =~= bodies[j as int]@);
        }
        let ghost posts_old = posts.deep_view();
        match decode_post(&bodies[j]) {
            None => {
                proof {
                    assert(bsv.skip(j as int).len() > 0);
                    assert(spec_dec_post(bsv[j as int]) is None);
                    assert(spec_dec_post_list(bsv.skip(j as int)) is None);
                }
                return None;
            },
            Some(p) => {
                proof {
                    assert(spec_dec_post(bsv[j as int]) == Some(p@));
                }
                posts.push(p);
                proof {
                    assert(posts.deep_view() =~= posts_old.push(p@));
                    if spec_dec_post_list(bsv.skip(j + 1)) is Some {
                        let rest = spec_dec_post_list(bsv.skip(j + 1))->Some_0;
                        assert(posts_old.push(p@) + rest =~= posts_old + (seq![p@] + rest));
                    }
                }
            },
        }
        j = j + 1;
    }
    proof {
        assert(bsv.skip(bodies.len() as int) =~= Seq::<Seq<u8>>::empty());
        assert(posts.deep_view() + Seq::<PostV>::empty() =~= posts.deep_view());
    }
    Some(QuerySubspacePostsResponse { posts })
}

/// The encoded bodies of a list of posts, in order.
pub open spec fn posts_bodies(ps: Seq<PostV>) -> Seq<Seq<u8>> {
    Seq::new(ps.len(), |i: int| spec_enc_post(ps[i]))
}

pub proof fn lemma_posts_list_fields_wf(ps: Seq<PostV>)
    requires
        forall|i: int| 0 <= i < ps.len() ==> post_v_wf(#[trigger] ps[i]),
    ensures
        fields_wf(posts_list_fields(ps)),
    decreases ps.len(),
{
    if ps.len() > 0 {
        lemma_enc_post_len(ps[0]);
        lemma_msg_piece_wf(1, spec_enc_post(ps[0]));
        assert(forall|i: int| 0 <= i < ps.skip(1).len() ==> ps.skip(1)[i] == ps[i + 1]);
        lemma_posts_list_fields_wf(ps.skip(1));
        lemma_fields_wf_concat(msg_piece(1, spec_enc_post(ps[0])), posts_list_fields(ps.skip(1)));
    }
}

pub proof fn lemma_fold_posts_bodies(ps: Seq<PostV>, acc: Seq<Seq<u8>>)
    ensures
        spec_fold_fields(posts_list_fields(ps), acc, post_bodies_step()) == acc + posts_bodies(
            ps,
        ),
    decreases ps.len(),
{
    if ps.len() == 0 {
        assert(acc + posts_bodies(ps) =~= acc);
    } else {
        let head = msg_piece(1, spec_enc_post(ps[0]));
        lemma_fold_fields_concat(head, posts_list_fields(ps.skip(1)), acc, post_bodies_step());
        lemma_fold_fields_one(
            FieldV { num: 1, val: FieldValV::Bytes(spec_enc_post(ps[0])) },
            acc,
            post_bodies_step(),
        );
        lemma_fold_posts_bodies(ps.skip(1), acc.push(spec_enc_post(ps[0])));
        assert(acc.push(spec_enc_post(ps[0])) + posts_bodies(ps.skip(1)) =~= acc + posts_bodies(
            ps,
        ));
    }
}

pub proof fn lemma_dec_post_list_enc(ps: Seq<PostV>)
    requires
        forall|i: int| 0 <= i < ps.len() ==> post_v_wf(#[trigger] ps[i]),
    ensures
        spec_dec_post_list(posts_bodies(ps)) == Some(ps),
    decreases ps.len(),
{
    if ps.len() == 0 {
        assert(posts_bodies(ps) =~= Seq::<Seq<u8>>::empty());
        assert(Seq::<PostV>::empty() =~= ps);
    } else {
        let bs = posts_bodies(ps);
        assert(bs[0] == spec_enc_post(ps[0]));
        lemma_post_round_trip(ps[0]);
        assert(forall|i: int| 0 <= i < ps.skip(1).len() ==> ps.skip(1)[i] == ps[i + 1]);
        lemma_dec_post_list_enc(ps.skip(1));
        assert(bs.skip(1) =~= posts_bodies(ps.skip(1)));
        assert(seq![ps[0]] + ps.skip(1) =~= ps);
    }
}

/// Decoding inverts encoding for every list of stored posts.
pub proof fn lemma_query_subspace_posts_response_round_trip(m: QuerySubspacePostsResponseV)
    requires
        forall|i: int| 0 <= i < m.posts.len() ==> post_v_wf(#[trigger] m.posts[i]),
    ensures
        spec_dec_query_subspace_posts_response(spec_enc_query_subspace_posts_response(m))
            == Some(m),
{
    lemma_posts_list_fields_wf(m.posts);
    lemma_parse_enc_fields(Seq::empty(), posts_list_fields(m.posts));
    assert(Seq::<u8>::empty() + spec_enc_fields(posts_list_fields(m.posts)) =~= spec_enc_fields(
        posts_list_fields(m.posts),
    ));
    lemma_fold_posts_bodies(m.posts, Seq::empty());
    assert(Seq::<Seq<u8>>::empty() + posts_bodies(m.posts) =~= posts_bodies(m.posts));
    lemma_dec_post_list_enc(m.posts);
    assert(QuerySubspacePostsResponseV { posts: m.posts } =~= m);
}


/// Copies a post.
pub fn clone_post(p: &Post) -> (r: Post)
    ensures
        r@ == p@,
{
    Post {
        subspace_id: p.subspace_id,
        section_id: p.section_id,
        id: p.id,
        text: clone_bytes(&p.text),
        author: clone_bytes(&p.author),
    }
}

// ---------------------------------------------------------------------------
// Type URLs and endpoint paths
// ---------------------------------------------------------------------------

/// Type URL under which a create-post request travels.
pub open spec fn spec_create_post_url() -> Seq<u8> {
    "/desmos.posts.v3.MsgCreatePost".spec_bytes()
}

pub fn create_post_url() -> (r: Vec<u8>)
    ensures
        r@ == spec_create_post_url(),
{
    vstd::slice::slice_to_vec("/desmos.posts.v3.MsgCreatePost".as_bytes())
}

/// Type URL under which an edit-post request travels.
pub open spec fn spec_edit_post_url() -> Seq<u8> {
    "/desmos.posts.v3.MsgEditPost".spec_bytes()
}

pub fn edit_post_url() -> (r: Vec<u8>)
    ensures
        r@ == spec_edit_post_url(),
{
    vstd::slice::slice_to_vec("/desmos.posts.v3.MsgEditPost".as_bytes())
}

/// Type URL under which a delete-post request travels.
pub open spec fn spec_delete_post_url() -> Seq<u8> {
    "/desmos.posts.v3.MsgDeletePost".spec_bytes()
}

pub fn delete_post_url() -> (r: Vec<u8>)
    ensures
        r@ == spec_delete_post_url(),
{
    vstd::slice::slice_to_vec("/desmos.posts.v3.MsgDeletePost".as_bytes())
}

/// Endpoint path of the post query.
pub open spec fn spec_query_post_path() -> Seq<u8> {
    "/desmos.posts.v3.Query/Post".spec_bytes()
}

pub fn query_post_path() -> (r: Vec<u8>)
    ensures
        r@ == spec_query_post_path(),
{
    vstd::slice::slice_to_vec("/desmos.posts.v3.Query/Post".as_bytes())
}

/// Endpoint path of the subspace-posts query.
pub open spec fn spec_query_subspace_posts_path() -> Seq<u8> {
    "/desmos.posts.v3.Query/SubspacePosts".spec_bytes()
}

pub fn query_subspace_posts_path() -> (r: Vec<u8>)
    ensures
        r@ == spec_query_subspace_posts_path(),
{
    vstd::slice::slice_to_vec("/desmos.posts.v3.Query/SubspacePosts".as_bytes())
}


// ---------------------------------------------------------------------------
// The posts binding
// ---------------------------------------------------------------------------

/// The posts module binding.  Stateless: each operation borrows the
/// runner for the duration of one call.  Every operation fixes its request
/// type, its response type and (for queries) its endpoint path at
/// definition time; the caller never sees bytes or path strings.
pub struct Posts {}

impl Posts {

    /// Submits a create-post request signed by `signer`.
    ///
    /// Succeeds exactly when the signer is a known account and the
    /// runner's rules for this message accept it; the accepted message
    /// commits one block.  On any rejection the committed state is
    /// untouched and the error names the chain's reason.
    pub fn create_post(
        app: &mut DesmosTestApp,
        msg: MsgCreatePost,
        signer: &SigningAccount,
    ) -> (r: Result<MsgCreatePostResponse, Error>)
        requires
            old(app).wf(),
        ensures
            final(app).wf(),
            !has_account(old(app)@, signer.address@) ==> final(app)@ == old(app)@ && r
                == Err::<MsgCreatePostResponse, Error>(
                Error::ExecutionError(ExecError::UnknownSigner),
            ),
            has_account(old(app)@, signer.address@) ==> match apply_create_post(
                old(app)@,
                msg@,
                signer.address@,
            ) {
                Ok(p) => {
                    &&& final(app)@ == spec_commit(p.0)
                    &&& r is Ok
                    &&& r->Ok_0.post_id == p.1
                },
                Err(e) => final(app)@ == old(app)@ && r == Err::<
                    MsgCreatePostResponse,
                    Error,
                >(Error::ExecutionError(e)),
            },
    {
        let text_len = msg.text.len();
        let author_len = msg.author.len();
        let body = encode_create_post(&msg);
        let url = create_post_url();
        let url_len = url.len();
        let body_len = body.len();
        proof {
            assert(spec_create_post_url().len() == url_len);
            assert(spec_enc_create_post(msg@).len() == body_len);
            assert(msg@.text.len() == text_len);
            assert(msg@.author.len() == author_len);
            lemma_any_round_trip(
                WireAnyV {
                    type_url: spec_create_post_url(),
                    value: spec_enc_create_post(msg@),
                },
            );
            lemma_create_post_round_trip(msg@);
            crate::runner::lemma_type_urls_distinct();
        }
        let tx = encode_any(&WireAny { type_url: url, value: body });
        match app.execute_any(&tx, signer) {
            Err(e) => Err(e),
            Ok(resbytes) => {
                proof {
                    let p = apply_create_post(old(app)@, msg@, signer.address@)->Ok_0;
                    lemma_create_post_response_round_trip((MsgCreatePostResponseV { post_id: p.1 }));
                }
                match decode_create_post_response(&resbytes) {
                    None => {
                        proof {
                            assert(false);
                        }
                        Err(Error::DecodeError)
                    },
                    Some(resp) => Ok(resp),
                }
            },
        }
    }


    /// Submits an edit-post request signed by `signer`.
    ///
    /// Succeeds exactly when the signer is a known account and the
    /// runner's rules for this message accept it; the accepted message
    /// commits one block.  On any rejection the committed state is
    /// untouched and the error names the chain's reason.
    pub fn edit_post(
        app: &mut DesmosTestApp,
        msg: MsgEditPost,
        signer: &SigningAccount,
    ) -> (r: Result<MsgEditPostResponse, Error>)
        requires
            old(app).wf(),
        ensures
            final(app).wf(),
            !has_account(old(app)@, signer.address@) ==> final(app)@ == old(app)@ && r
                == Err::<MsgEditPostResponse, Error>(
                Error::ExecutionError(ExecError::UnknownSigner),
            ),
            has_account(old(app)@, signer.address@) ==> match apply_edit_post(
                old(app)@,
                msg@,
                signer.address@,
            ) {
                Ok(s2) => final(app)@ == spec_commit(s2) && r is Ok,
                Err(e) => final(app)@ == old(app)@ && r == Err::<
                    MsgEditPostResponse,
                    Error,
                >(Error::ExecutionError(e)),
            },
    {
        let text_len = msg.text.len();
        let editor_len = msg.editor.len();
        let body = encode_edit_post(&msg);
        let url = edit_post_url();
        let url_len = url.len();
        let body_len = body.len();
        proof {
            assert(spec_edit_post_url().len() == url_len);
            assert(spec_enc_edit_post(msg@).len() == body_len);
            assert(msg@.text.len() == text_len);
            assert(msg@.editor.len() == editor_len);
            lemma_any_round_trip(
                WireAnyV {
                    type_url: spec_edit_post_url(),
                    value: spec_enc_edit_post(msg@),
                },
            );
            lemma_edit_post_round_trip(msg@);
            crate::runner::lemma_type_urls_distinct();
        }
        let tx = encode_any(&WireAny { type_url: url, value: body });
        match app.execute_any(&tx, signer) {
            Err(e) => Err(e),
            Ok(resbytes) => {
                proof {
                    lemma_edit_post_response_round_trip((MsgEditPostResponseV {  }));
                }
                match decode_edit_post_response(&resbytes) {
                    None => {
                        proof {
                            assert(false);
                        }
                        Err(Error::DecodeError)
                    },
                    Some(resp) => Ok(resp),
                }
            },
        }
    }


    /// Submits a delete-post request signed by `signer`.
    ///
    /// Succeeds exactly when the signer is a known account and the
    /// runner's rules for this message accept it; the accepted message
    /// commits one block.  On any rejection the committed state is
    /// untouched and the error names the chain's reason.
    pub fn delete_post(
        app: &mut DesmosTestApp,
        msg: MsgDeletePost,
        signer: &SigningAccount,
    ) -> (r: Result<MsgDeletePostResponse, Error>)
        requires
            old(app).wf(),
        ensures
            final(app).wf(),
            !has_account(old(app)@, signer.address@) ==> final(app)@ == old(app)@ && r
                == Err::<MsgDeletePostResponse, Error>(
                Error::ExecutionError(ExecError::UnknownSigner),
            ),
            has_account(old(app)@, signer.address@) ==> match apply_delete_post(
                old(app)@,
                msg@,
                signer.address@,
            ) {
                Ok(s2) => final(app)@ == spec_commit(s2) && r is Ok,
                Err(e) => final(app)@ == old(app)@ && r == Err::<
                    MsgDeletePostResponse,
                    Error,
                >(Error::ExecutionError(e)),
            },
    {
        let signer_len = msg.signer.len();
        let body = encode_delete_post(&msg);
        let url = delete_post_url();
        let url_len = url.len();
        let body_len = body.len();
        proof {
            assert(spec_delete_post_url().len() == url_len);
            assert(spec_enc_delete_post(msg@).len() == body_len);
            assert(msg@.signer.len() == signer_len);
            lemma_any_round_trip(
                WireAnyV {
                    type_url: spec_delete_post_url(),
                    value: spec_enc_delete_post(msg@),
                },
            );
            lemma_delete_post_round_trip(msg@);
            crate::runner::lemma_type_urls_distinct();
        }
        let tx = encode_any(&WireAny { type_url: url, value: body });
        match app.execute_any(&tx, signer) {
            Err(e) => Err(e),
            Ok(resbytes) => {
                proof {
                    lemma_delete_post_response_round_trip((MsgDeletePostResponseV {  }));
                }
                match decode_delete_post_response(&resbytes) {
                    None => {
                        proof {
                            assert(false);
                        }
                        Err(Error::DecodeError)
                    },
                    Some(resp) => Ok(resp),
                }
            },
        }
    }

    /// Queries one post by subspace and post id over the fixed endpoint
    /// path.
    ///
    /// The post is returned exactly when the chain holds it; an unknown id
    /// surfaces as a query error, never as an empty response.
    pub fn query_post(app: &DesmosTestApp, req: &QueryPostRequest) -> (r: Result<
        QueryPostResponse,
        Error,
    >)
        requires
            app.wf(),
        ensures
            match find_post(app@.posts, req.subspace_id, req.post_id) {
                Some(p) => r is Ok && r->Ok_0@.post == p,
                None => r == Err::<QueryPostResponse, Error>(
                    Error::QueryError(QueryError::PostNotFound),
                ),
            },
    {
        let reqb = encode_query_post_request(req);
        let path = query_post_path();
        proof {
            lemma_query_post_request_round_trip(req@);
            crate::runner::lemma_query_paths_distinct();
        }
        match app.query_raw(&path, &reqb) {
            Err(e) => Err(e),
            Ok(resbytes) => {
                proof {
                    if find_post(app@.posts, req.subspace_id, req.post_id) is Some {
                        let p = find_post(app@.posts, req.subspace_id, req.post_id)->Some_0;
                        lemma_find_post_mem(app@.posts, req.subspace_id, req.post_id);
                        let i = choose|i: int| 0 <= i < app@.posts.len() && app@.posts[i] == p;
                        assert(post_v_wf(app@.posts[i]));
                        lemma_enc_post_len(p);
                        lemma_query_post_response_round_trip((QueryPostResponseV { post: p }));
                    }
                }
                match decode_query_post_response(&resbytes) {
                    None => {
                        proof {
                            assert(false);
                        }
                        Err(Error::DecodeError)
                    },
                    Some(resp) => Ok(resp),
                }
            },
        }
    }

    /// Queries every post of one subspace over the fixed endpoint path.
    ///
    /// Always succeeds: a subspace without posts, or an unknown subspace
    /// id, yields an empty list rather than an error.
    pub fn query_subspace_posts(app: &DesmosTestApp, req: &QuerySubspacePostsRequest) -> (r:
        Result<QuerySubspacePostsResponse, Error>)
        requires
            app.wf(),
        ensures
            r is Ok,
            r->Ok_0@.posts == posts_of_subspace(app@.posts, req.subspace_id),
    {
        let reqb = encode_query_subspace_posts_request(req);
        let path = query_subspace_posts_path();
        proof {
            lemma_query_subspace_posts_request_round_trip(req@);
            crate::runner::lemma_query_paths_distinct();
        }
        match app.query_raw(&path, &reqb) {
            Err(e) => {
                proof {
                    assert(false);
                }
                Err(e)
            },
            Ok(resbytes) => {
                proof {
                    lemma_posts_of_subspace_all(
                        app@.posts,
                        req.subspace_id,
                        |p: PostV| post_v_wf(p),
                    );
                    lemma_query_subspace_posts_response_round_trip(
                        (QuerySubspacePostsResponseV {
                            posts: posts_of_subspace(app@.posts, req.subspace_id),
                        }),
                    );
                }
                match decode_query_subspace_posts_response(&resbytes) {
                    None => {
                        proof {
                            assert(false);
                        }
                        Err(Error::DecodeError)
                    },
                    Some(resp) => Ok(resp),
                }
            },
        }
    }
}

} // verus!
