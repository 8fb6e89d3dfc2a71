//! The embedded chain runner: an in-memory chain the bindings drive.
//!
//! The runner owns the committed chain state.  Execute calls are strictly
//! sequential: each accepted transaction is applied and committed as one
//! block before the call returns, so a later query sees every earlier
//! write.  A rejected transaction leaves the committed state untouched.
//! Queries run against the committed state and produce no block.
//!
//! Balances and gas are not modelled: a signer is valid exactly when the
//! runner handed its address out, and no fee is charged.

use crate::posts::{
    create_post_url, decode_create_post, decode_delete_post, decode_edit_post,
    decode_query_post_request, decode_query_subspace_posts_request, delete_post_url,
    edit_post_url, encode_create_post_response, encode_delete_post_response,
    encode_edit_post_response, encode_query_post_response,
    encode_query_subspace_posts_response, MsgCreatePost, MsgCreatePostResponse, MsgDeletePost,
    MsgDeletePostResponse, MsgEditPost, MsgEditPostResponse, QueryPostResponse,
    QuerySubspacePostsResponse,
    post_v_wf, spec_create_post_url, spec_dec_create_post, spec_dec_delete_post,
    spec_dec_edit_post, spec_dec_query_post_request, spec_dec_query_subspace_posts_request,
    spec_delete_post_url, spec_edit_post_url, spec_enc_create_post_response,
    spec_enc_delete_post_response, spec_enc_edit_post_response, spec_enc_query_post_response,
    spec_enc_query_subspace_posts_response, spec_query_post_path, spec_query_subspace_posts_path,
    MsgCreatePostResponseV, MsgCreatePostV, MsgDeletePostResponseV, MsgDeletePostV,
    MsgEditPostResponseV, MsgEditPostV, PostV, QueryPostResponseV, QuerySubspacePostsResponseV,
};
use crate::subspaces::{
    create_subspace_url, decode_create_subspace, decode_delete_subspace, decode_edit_subspace,
    decode_query_subspace_request, delete_subspace_url, edit_subspace_url,
    encode_create_subspace_response, encode_delete_subspace_response,
    encode_edit_subspace_response, encode_query_subspace_response, MsgCreateSubspace,
    MsgCreateSubspaceResponse, MsgDeleteSubspace, MsgDeleteSubspaceResponse, MsgEditSubspace,
    MsgEditSubspaceResponse, QuerySubspaceResponse, Subspace,
    spec_create_subspace_url, spec_dec_create_subspace, spec_dec_delete_subspace,
    spec_dec_edit_subspace, spec_dec_query_subspace_request, spec_delete_subspace_url,
    spec_edit_subspace_url, spec_enc_create_subspace_response,
    spec_enc_delete_subspace_response, spec_enc_edit_subspace_response,
    spec_enc_query_subspace_response, spec_query_subspace_path, subspace_v_wf,
    MsgCreateSubspaceResponseV, MsgCreateSubspaceV, MsgDeleteSubspaceResponseV,
    MsgDeleteSubspaceV, MsgEditSubspaceResponseV, MsgEditSubspaceV, QuerySubspaceResponseV,
    SubspaceV,
};
use crate::wire::{bytes_eq, clone_bytes, decode_any, spec_dec_any, MAX_TEXT_LEN};
use vstd::prelude::*;
use vstd::string::StringSliceAdditionalSpecFns;

verus! {

/// Nanoseconds of the genesis block's timestamp.
pub const GENESIS_TIME_NANOS: i64 = 1_577_836_800_000_000_000;

/// Nanoseconds a committed block advances the chain clock by.
pub const BLOCK_NANOS: i64 = 1_000_000_000;

// ---------------------------------------------------------------------------
// Errors
// ---------------------------------------------------------------------------

/// Reason the chain rejected a signed message.
#[derive(Debug, Clone, Copy, PartialEq, Eq, Structural)]
pub enum ExecError {
    /// The signer is not an account this runner handed out.
    UnknownSigner,
    /// The transaction envelope or the message inside it did not parse.
    MalformedTx,
    /// The envelope's type URL names no operation this chain handles.
    UnknownMessageType,
    /// A required name field was empty.
    EmptyName,
    /// A byte-string field was longer than the chain stores.
    ValueTooLong,
    /// The message names an author or creator other than the signer.
    WrongSigner,
    /// The message refers to a subspace the chain does not hold.
    SubspaceNotFound,
    /// The message refers to a post the chain does not hold.
    PostNotFound,
    /// The signer holds no right to change the entity.
    NotAllowed,
    /// The id space is exhausted.
    StoreFull,
}

/// Reason the read path failed.
#[derive(Debug, Clone, Copy, PartialEq, Eq, Structural)]
pub enum QueryError {
    /// The path names no endpoint this chain serves.
    UnknownEndpoint,
    /// The request bytes did not parse for the endpoint.
    MalformedRequest,
    /// The queried subspace is absent.
    SubspaceNotFound,
    /// The queried post is absent.
    PostNotFound,
}

/// Error of one binding operation.
#[derive(Debug, Clone, Copy, PartialEq, Eq, Structural)]
pub enum Error {
    /// The chain rejected the signed message; committed state is untouched.
    ExecutionError(ExecError),
    /// The read path failed.
    QueryError(QueryError),
    /// Response bytes did not match the operation's declared response type.
    /// The verified operations prove this is never returned.
    DecodeError,
}

// ---------------------------------------------------------------------------
// Accounts
// ---------------------------------------------------------------------------

/// One denomination of funds, as handed to `init_account`.  Balances are
/// not modelled further.
#[derive(Debug, Clone, PartialEq, Eq)]
pub struct Coin {
    pub denom: Vec<u8>,
    pub amount: u128,
}

/// A signing credential the runner handed out: the account's address.
#[derive(Debug, Clone, PartialEq, Eq)]
pub struct SigningAccount {
    pub address: Vec<u8>,
}

impl SigningAccount {
    /// The account's address.
    pub fn address(&self) -> (r: Vec<u8>)
        ensures
            r@ == self.address@,
    {
        clone_bytes(&self.address)
    }
}

/// Decimal digits of `n`, most significant first.
pub open spec fn spec_decimal(n: u64) -> Seq<u8>
    decreases n,
{
    if n < 10 {
        seq![(48 + n) as u8]
    } else {
        spec_decimal(n / 10) + seq![(48 + n % 10) as u8]
    }
}

/// Appends the decimal digits of `n`.
pub fn push_decimal(out: &mut Vec<u8>, n: u64)
    ensures
        final(out)@ == old(out)@ + spec_decimal(n),
    decreases n,
{
    if n < 10 {
        out.push(48 + n as u8);
        assert(out@ =~= old(out)@ + spec_decimal(n));
    } else {
        push_decimal(out, n / 10);
        out.push(48 + (n % 10) as u8);
        assert(out@ =~= old(out)@ + spec_decimal(n));
    }
}

/// Address of the account with the given creation index.
pub open spec fn spec_account_address(n: u64) -> Seq<u8> {
    "desmos1".spec_bytes() + spec_decimal(n)
}

/// Builds the address of the account with the given creation index.
pub fn account_address(n: u64) -> (r: Vec<u8>)
    ensures
        r@ == spec_account_address(n),
{
    let mut out = vstd::slice::slice_to_vec("desmos1".as_bytes());
    push_decimal(&mut out, n);
    out
}

// ---------------------------------------------------------------------------
// Chain state
// ---------------------------------------------------------------------------

/// The embedded chain runner.  Owns the committed chain state; bindings
/// borrow it for the duration of one call.
#[derive(Debug)]
pub struct DesmosTestApp {
    accounts: Vec<Vec<u8>>,
    subspaces: Vec<crate::subspaces::Subspace>,
    posts: Vec<crate::posts::Post>,
    next_subspace_id: u64,
    next_post_id: u64,
    next_account: u64,
    block_height: i64,
    block_time_nanos: i64,
}

/// Mathematical form of the committed chain state.
#[verifier::ext_equal]
pub struct StateV {
    pub accounts: Seq<Seq<u8>>,
    pub subspaces: Seq<SubspaceV>,
    pub posts: Seq<PostV>,
    pub next_subspace_id: u64,
    pub next_post_id: u64,
    pub next_account: u64,
    pub block_height: i64,
    pub block_time_nanos: i64,
}

impl View for DesmosTestApp {
    type V = StateV;

    closed spec fn view(&self) -> StateV {
        StateV {
            accounts: self.accounts.deep_view(),
            subspaces: self.subspaces.deep_view(),
            posts: self.posts.deep_view(),
            next_subspace_id: self.next_subspace_id,
            next_post_id: self.next_post_id,
            next_account: self.next_account,
            block_height: self.block_height,
            block_time_nanos: self.block_time_nanos,
        }
    }
}

/// Well-formedness of the committed state: ids start at one and stay below
/// the next free id, and every stored entity respects the chain's field
/// length limit.
pub open spec fn state_wf(s: StateV) -> bool {
    &&& 1 <= s.next_subspace_id
    &&& 1 <= s.next_post_id
    &&& 1 <= s.next_account
    &&& 1 <= s.block_height
    &&& 0 <= s.block_time_nanos
    &&& forall|i: int|
        0 <= i < s.subspaces.len() ==> subspace_v_wf(#[trigger] s.subspaces[i]) && 1 <= s.subspaces[i].id
            < s.next_subspace_id
    &&& forall|i: int|
        0 <= i < s.posts.len() ==> post_v_wf(#[trigger] s.posts[i]) && 1 <= s.posts[i].id
            < s.next_post_id
}

impl Default for DesmosTestApp {
    /// Same as [`DesmosTestApp::new`].
    fn default() -> (r: DesmosTestApp)
        ensures
            r.wf(),
            r@.accounts.len() == 0,
            r@.subspaces.len() == 0,
            r@.posts.len() == 0,
            r@.next_subspace_id == 1,
            r@.next_post_id == 1,
            r@.block_height == 1,
            r@.block_time_nanos == GENESIS_TIME_NANOS,
    {
        DesmosTestApp::new()
    }
}

impl DesmosTestApp {
    /// Well-formedness of the runner: constructors establish it and every
    /// operation preserves it.
    pub open spec fn wf(&self) -> bool {
        state_wf(self@)
    }

    /// A fresh chain: one committed genesis block, no accounts, no state.
    pub fn new() -> (r: DesmosTestApp)
        ensures
            r.wf(),
            r@.accounts.len() == 0,
            r@.subspaces.len() == 0,
            r@.posts.len() == 0,
            r@.next_subspace_id == 1,
            r@.next_post_id == 1,
            r@.block_height == 1,
            r@.block_time_nanos == GENESIS_TIME_NANOS,
    {
        let r = DesmosTestApp {
            accounts: Vec::new(),
            subspaces: Vec::new(),
            posts: Vec::new(),
            next_subspace_id: 1,
            next_post_id: 1,
            next_account: 1,
            block_height: 1,
            block_time_nanos: GENESIS_TIME_NANOS,
        };
        assert(r@.accounts =~= Seq::<Seq<u8>>::empty());
        assert(r@.subspaces =~= Seq::<SubspaceV>::empty());
        assert(r@.posts =~= Seq::<PostV>::empty());
        r
    }

    /// Current block height.
    pub fn get_block_height(&self) -> (r: i64)
        ensures
            r == self@.block_height,
    {
        self.block_height
    }

    /// Current block time in nanoseconds.
    pub fn get_block_time_nanos(&self) -> (r: i64)
        ensures
            r == self@.block_time_nanos,
    {
        self.block_time_nanos
    }

    /// Current block time in seconds.
    pub fn get_block_time_seconds(&self) -> (r: i64)
        requires
            self.wf(),
        ensures
            r == self@.block_time_nanos / 1_000_000_000,
    {
        self.block_time_nanos / 1_000_000_000
    }

    /// Advances the chain clock by the given number of seconds, committing
    /// one empty block.  The clock and the height saturate instead of
    /// overflowing.
    pub fn increase_time(&mut self, seconds: u64)
        requires
            old(self).wf(),
        ensures
            final(self).wf(),
            final(self)@ == (StateV {
                block_height: spec_next_height(old(self)@.block_height),
                block_time_nanos: spec_add_seconds(old(self)@.block_time_nanos, seconds),
                ..old(self)@
            }),
    {
        self.block_time_nanos = add_seconds(self.block_time_nanos, seconds);
        if self.block_height < i64::MAX {
            self.block_height = self.block_height + 1;
        }
        assert(self@ =~= (StateV {
            block_height: spec_next_height(old(self)@.block_height),
            block_time_nanos: spec_add_seconds(old(self)@.block_time_nanos, seconds),
            ..old(self)@
        }));
    }

    /// Creates a fresh funded account and hands out its signing credential.
    /// Fails only when the account id space is exhausted.
    pub fn init_account(&mut self, coins: &Vec<Coin>) -> (r: Result<SigningAccount, Error>)
        requires
            old(self).wf(),
        ensures
            final(self).wf(),
            r is Ok <==> old(self)@.next_account < u64::MAX,
            r is Ok ==> {
                &&& r->Ok_0.address@ == spec_account_address(old(self)@.next_account)
                &&& final(self)@ == (StateV {
                    accounts: old(self)@.accounts.push(r->Ok_0.address@),
                    next_account: (old(self)@.next_account + 1) as u64,
                    ..old(self)@
                })
            },
            r is Err ==> final(self)@ == old(self)@ && r == Err::<SigningAccount, Error>(
                Error::ExecutionError(ExecError::StoreFull),
            ),
    {
        if self.next_account == u64::MAX {
            assert(self@ =~= old(self)@);
            return Err(Error::ExecutionError(ExecError::StoreFull));
        }
        let addr = account_address(self.next_account);
        self.accounts.push(clone_bytes(&addr));
        self.next_account = self.next_account + 1;
        assert(self@ =~~= (StateV {
            accounts: old(self)@.accounts.push(addr@),
            next_account: (old(self)@.next_account + 1) as u64,
            ..old(self)@
        }));
        Ok(SigningAccount { address: addr })
    }

    /// Creates several accounts with the same initial balance.
    pub fn init_accounts(&mut self, coins: &Vec<Coin>, count: u64) -> (r: Result<
        Vec<SigningAccount>,
        Error,
    >)
        requires
            old(self).wf(),
            count <= u64::MAX - old(self)@.next_account,
        ensures
            final(self).wf(),
            r is Ok,
            r->Ok_0.len() == count,
            forall|i: int|
                0 <= i < count ==> (#[trigger] r->Ok_0[i]).address@ == spec_account_address(
                    (old(self)@.next_account + i) as u64,
                ),
            final(self)@.next_account == old(self)@.next_account + count,
            final(self)@ == (StateV {
                accounts: final(self)@.accounts,
                next_account: final(self)@.next_account,
                ..old(self)@
            }),
            final(self)@.accounts.len() == old(self)@.accounts.len() + count,
            forall|i: int|
                0 <= i < old(self)@.accounts.len() ==> final(self)@.accounts[i] == old(
                    self,
                )@.accounts[i],
    {
        let mut out: Vec<SigningAccount> = Vec::new();
        let mut i: u64 = 0;
        while i < count
            invariant
                0 <= i <= count,
                count <= u64::MAX - old(self)@.next_account,
                self.wf(),
                out.len() == i,
                self@.next_account == old(self)@.next_account + i,
                forall|j: int|
                    0 <= j < i ==> (#[trigger] out[j]).address@ == spec_account_address(
                        (old(self)@.next_account + j) as u64,
                    ),
                self@ == (StateV { accounts: self@.accounts, next_account: self@.next_account, ..old(
                    self,
                )@ }),
                self@.accounts.len() == old(self)@.accounts.len() + i,
                forall|j: int|
                    0 <= j < old(self)@.accounts.len() ==> self@.accounts[j] == old(
                        self,
                    )@.accounts[j],
            decreases count - i,
        {
            let ghost prev = self@;
            let acct = match self.init_account(coins) {
                Ok(a) => a,
                Err(_) => {
                    proof {
                        assert(false);
                    }
                    return Err(Error::ExecutionError(ExecError::StoreFull));
                },
            };
            out.push(acct);
            i = i + 1;
        }
        Ok(out)
    }
}

/// The height after committing one block: one more, saturating.
pub open spec fn spec_next_height(h: i64) -> i64 {
    if h < i64::MAX {
        (h + 1) as i64
    } else {
        h
    }
}

/// The chain clock after advancing by `seconds`, saturating at the far end
/// of the representable range.
pub open spec fn spec_add_seconds(t: i64, seconds: u64) -> i64 {
    if t + seconds * 1_000_000_000 <= i64::MAX {
        (t + seconds * 1_000_000_000) as i64
    } else {
        i64::MAX
    }
}

/// Advances a non-negative clock by whole seconds, saturating.
pub fn add_seconds(t: i64, seconds: u64) -> (r: i64)
    requires
        t >= 0,
    ensures
        r == spec_add_seconds(t, seconds),
{
    if seconds > (i64::MAX as u64) / 1_000_000_000 {
        proof {
            assert(seconds * 1_000_000_000 > i64::MAX) by (nonlinear_arith)
                requires
                    seconds > (i64::MAX as u64) / 1_000_000_000,
            ;
        }
        i64::MAX
    } else {
        let add = (seconds as i64) * 1_000_000_000;
        proof {
            assert(seconds as i64 * 1_000_000_000 <= i64::MAX) by (nonlinear_arith)
                requires
                    0 <= seconds <= (i64::MAX as u64) / 1_000_000_000,
            ;
        }
        if t <= i64::MAX - add {
            t + add
        } else {
            i64::MAX
        }
    }
}


// ---------------------------------------------------------------------------
// Lookups over the committed state
// ---------------------------------------------------------------------------

/// Whether `addr` is an account this runner handed out.
pub open spec fn has_account(s: StateV, addr: Seq<u8>) -> bool {
    exists|i: int| 0 <= i < s.accounts.len() && s.accounts[i] == addr
}

/// First stored subspace with the given id.
pub open spec fn find_subspace(ss: Seq<SubspaceV>, id: u64) -> Option<SubspaceV>
    decreases ss.len(),
{
    if ss.len() == 0 {
        None
    } else if ss[0].id == id {
        Some(ss[0])
    } else {
        find_subspace(ss.skip(1), id)
    }
}

/// Replaces the first subspace with the given id.
pub open spec fn update_subspace(ss: Seq<SubspaceV>, id: u64, sub: SubspaceV) -> Seq<SubspaceV>
    decreases ss.len(),
{
    if ss.len() == 0 {
        ss
    } else if ss[0].id == id {
        seq![sub] + ss.skip(1)
    } else {
        seq![ss[0]] + update_subspace(ss.skip(1), id, sub)
    }
}

/// Removes the first subspace with the given id.
pub open spec fn remove_subspace(ss: Seq<SubspaceV>, id: u64) -> Seq<SubspaceV>
    decreases ss.len(),
{
    if ss.len() == 0 {
        ss
    } else if ss[0].id == id {
        ss.skip(1)
    } else {
        seq![ss[0]] + remove_subspace(ss.skip(1), id)
    }
}

/// First stored post with the given subspace and post id.
pub open spec fn find_post(ps: Seq<PostV>, sid: u64, pid: u64) -> Option<PostV>
    decreases ps.len(),
{
    if ps.len() == 0 {
        None
    } else if ps[0].subspace_id == sid && ps[0].id == pid {
        Some(ps[0])
    } else {
        find_post(ps.skip(1), sid, pid)
    }
}

/// Replaces the first post with the given ids.
pub open spec fn update_post(ps: Seq<PostV>, sid: u64, pid: u64, p: PostV) -> Seq<PostV>
    decreases ps.len(),
{
    if ps.len() == 0 {
        ps
    } else if ps[0].subspace_id == sid && ps[0].id == pid {
        seq![p] + ps.skip(1)
    } else {
        seq![ps[0]] + update_post(ps.skip(1), sid, pid, p)
    }
}

/// Removes the first post with the given ids.
pub open spec fn remove_post(ps: Seq<PostV>, sid: u64, pid: u64) -> Seq<PostV>
    decreases ps.len(),
{
    if ps.len() == 0 {
        ps
    } else if ps[0].subspace_id == sid && ps[0].id == pid {
        ps.skip(1)
    } else {
        seq![ps[0]] + remove_post(ps.skip(1), sid, pid)
    }
}

/// Posts of the given subspace, in storage order.
pub open spec fn posts_of_subspace(ps: Seq<PostV>, sid: u64) -> Seq<PostV>
    decreases ps.len(),
{
    if ps.len() == 0 {
        ps
    } else if ps[0].subspace_id == sid {
        seq![ps[0]] + posts_of_subspace(ps.skip(1), sid)
    } else {
        posts_of_subspace(ps.skip(1), sid)
    }
}

/// Posts that do not belong to the given subspace, in storage order.
pub open spec fn posts_without_subspace(ps: Seq<PostV>, sid: u64) -> Seq<PostV>
    decreases ps.len(),
{
    if ps.len() == 0 {
        ps
    } else if ps[0].subspace_id == sid {
        posts_without_subspace(ps.skip(1), sid)
    } else {
        seq![ps[0]] + posts_without_subspace(ps.skip(1), sid)
    }
}

// ---------------------------------------------------------------------------
// Message semantics
// ---------------------------------------------------------------------------

/// Effect of a create-subspace message, or the exact reason it is rejected.
/// On success the new subspace takes the next free id; an empty owner field
/// makes the creator the owner.
pub open spec fn apply_create_subspace(s: StateV, m: MsgCreateSubspaceV, signer: Seq<u8>) -> Result<
    (StateV, u64),
    ExecError,
> {
    if m.creator != signer {
        Err(ExecError::WrongSigner)
    } else if m.name.len() == 0 {
        Err(ExecError::EmptyName)
    } else if m.name.len() > MAX_TEXT_LEN || m.description.len() > MAX_TEXT_LEN || m.owner.len()
        > MAX_TEXT_LEN || m.creator.len() > MAX_TEXT_LEN {
        Err(ExecError::ValueTooLong)
    } else if s.next_subspace_id == u64::MAX {
        Err(ExecError::StoreFull)
    } else {
        let sub = SubspaceV {
            id: s.next_subspace_id,
            name: m.name,
            description: m.description,
            owner: if m.owner.len() == 0 {
                m.creator
            } else {
                m.owner
            },
            creator: m.creator,
        };
        Ok(
            (
                StateV {
                    subspaces: s.subspaces.push(sub),
                    next_subspace_id: (s.next_subspace_id + 1) as u64,
                    ..s
                },
                s.next_subspace_id,
            ),
        )
    }
}

/// Effect of an edit-subspace message: only the owner may edit; the name
/// and description are replaced; an empty owner field keeps the owner.
pub open spec fn apply_edit_subspace(s: StateV, m: MsgEditSubspaceV, signer: Seq<u8>) -> Result<
    StateV,
    ExecError,
> {
    match find_subspace(s.subspaces, m.subspace_id) {
        None => Err(ExecError::SubspaceNotFound),
        Some(sub) => {
            if signer != sub.owner {
                Err(ExecError::NotAllowed)
            } else if m.name.len() == 0 {
                Err(ExecError::EmptyName)
            } else if m.name.len() > MAX_TEXT_LEN || m.description.len() > MAX_TEXT_LEN
                || m.owner.len() > MAX_TEXT_LEN {
                Err(ExecError::ValueTooLong)
            } else {
                let sub2 = SubspaceV {
                    id: sub.id,
                    name: m.name,
                    description: m.description,
                    owner: if m.owner.len() == 0 {
                        sub.owner
                    } else {
                        m.owner
                    },
                    creator: sub.creator,
                };
                Ok(StateV { subspaces: update_subspace(s.subspaces, m.subspace_id, sub2), ..s })
            }
        },
    }
}

/// Effect of a delete-subspace message: only the owner may delete; the
/// subspace and every post in it disappear.
pub open spec fn apply_delete_subspace(s: StateV, m: MsgDeleteSubspaceV, signer: Seq<u8>) -> Result<
    StateV,
    ExecError,
> {
    match find_subspace(s.subspaces, m.subspace_id) {
        None => Err(ExecError::SubspaceNotFound),
        Some(sub) => {
            if signer != sub.owner {
                Err(ExecError::NotAllowed)
            } else {
                Ok(
                    StateV {
                        subspaces: remove_subspace(s.subspaces, m.subspace_id),
                        posts: posts_without_subspace(s.posts, m.subspace_id),
                        ..s
                    },
                )
            }
        },
    }
}

/// Effect of a create-post message: the author must sign, and the parent
/// subspace must exist.  On success the post takes the next free id.
pub open spec fn apply_create_post(s: StateV, m: MsgCreatePostV, signer: Seq<u8>) -> Result<
    (StateV, u64),
    ExecError,
> {
    if m.author != signer {
        Err(ExecError::WrongSigner)
    } else if m.text.len() > MAX_TEXT_LEN || m.author.len() > MAX_TEXT_LEN {
        Err(ExecError::ValueTooLong)
    } else if find_subspace(s.subspaces, m.subspace_id) is None {
        Err(ExecError::SubspaceNotFound)
    } else if s.next_post_id == u64::MAX {
        Err(ExecError::StoreFull)
    } else {
        let p = PostV {
            subspace_id: m.subspace_id,
            section_id: m.section_id,
            id: s.next_post_id,
            text: m.text,
            author: m.author,
        };
        Ok(
            (
                StateV { posts: s.posts.push(p), next_post_id: (s.next_post_id + 1) as u64, ..s },
                s.next_post_id,
            ),
        )
    }
}

/// Effect of an edit-post message: only the author may edit; the text is
/// replaced.
pub open spec fn apply_edit_post(s: StateV, m: MsgEditPostV, signer: Seq<u8>) -> Result<
    StateV,
    ExecError,
> {
    match find_post(s.posts, m.subspace_id, m.post_id) {
        None => Err(ExecError::PostNotFound),
        Some(p) => {
            if signer != p.author {
                Err(ExecError::NotAllowed)
            } else if m.text.len() > MAX_TEXT_LEN {
                Err(ExecError::ValueTooLong)
            } else {
                let p2 = PostV {
                    subspace_id: p.subspace_id,
                    section_id: p.section_id,
                    id: p.id,
                    text: m.text,
                    author: p.author,
                };
                Ok(StateV { posts: update_post(s.posts, m.subspace_id, m.post_id, p2), ..s })
            }
        },
    }
}

/// Effect of a delete-post message: only the author may delete.
pub open spec fn apply_delete_post(s: StateV, m: MsgDeletePostV, signer: Seq<u8>) -> Result<
    StateV,
    ExecError,
> {
    match find_post(s.posts, m.subspace_id, m.post_id) {
        None => Err(ExecError::PostNotFound),
        Some(p) => {
            if signer != p.author {
                Err(ExecError::NotAllowed)
            } else {
                Ok(StateV { posts: remove_post(s.posts, m.subspace_id, m.post_id), ..s })
            }
        },
    }
}

// ---------------------------------------------------------------------------
// Execute: decode the envelope, dispatch on the type URL, apply, commit
// ---------------------------------------------------------------------------

/// State after committing one block: height and clock advance, saturating.
pub open spec fn spec_commit(s: StateV) -> StateV {
    StateV {
        block_height: spec_next_height(s.block_height),
        block_time_nanos: if s.block_time_nanos + BLOCK_NANOS <= i64::MAX {
            (s.block_time_nanos + BLOCK_NANOS) as i64
        } else {
            i64::MAX
        },
        ..s
    }
}

/// The committed state and outcome of one execute call: the signer must be
/// a known account; the transaction envelope and message must decode; the
/// message's own rules decide the rest.  An accepted message commits one
/// block; a rejected one leaves the committed state untouched.
pub open spec fn spec_execute(s: StateV, tx: Seq<u8>, signer: Seq<u8>) -> (StateV, Result<
    Seq<u8>,
    Error,
>) {
    if !has_account(s, signer) {
        (s, Err(Error::ExecutionError(ExecError::UnknownSigner)))
    } else {
        match spec_dec_any(tx) {
            None => (s, Err(Error::ExecutionError(ExecError::MalformedTx))),
            Some(any) => spec_dispatch(s, any.type_url, any.value, signer),
        }
    }
}

/// Dispatch of a decoded envelope on its type URL.
pub open spec fn spec_dispatch(s: StateV, url: Seq<u8>, body: Seq<u8>, signer: Seq<u8>) -> (StateV, Result<
    Seq<u8>,
    Error,
>) {
    if url == spec_create_subspace_url() {
        match spec_dec_create_subspace(body) {
            None => (s, Err(Error::ExecutionError(ExecError::MalformedTx))),
            Some(m) => match apply_create_subspace(s, m, signer) {
                Err(e) => (s, Err(Error::ExecutionError(e))),
                Ok((s2, id)) => (
                    spec_commit(s2),
                    Ok(
                        spec_enc_create_subspace_response(
                            MsgCreateSubspaceResponseV { subspace_id: id },
                        ),
                    ),
                ),
            },
        }
    } else if url == spec_edit_subspace_url() {
        match spec_dec_edit_subspace(body) {
            None => (s, Err(Error::ExecutionError(ExecError::MalformedTx))),
            Some(m) => match apply_edit_subspace(s, m, signer) {
                Err(e) => (s, Err(Error::ExecutionError(e))),
                Ok(s2) => (
                    spec_commit(s2),
                    Ok(spec_enc_edit_subspace_response(MsgEditSubspaceResponseV {  })),
                ),
            },
        }
    } else if url == spec_delete_subspace_url() {
        match spec_dec_delete_subspace(body) {
            None => (s, Err(Error::ExecutionError(ExecError::MalformedTx))),
            Some(m) => match apply_delete_subspace(s, m, signer) {
                Err(e) => (s, Err(Error::ExecutionError(e))),
                Ok(s2) => (
                    spec_commit(s2),
                    Ok(spec_enc_delete_subspace_response(MsgDeleteSubspaceResponseV {  })),
                ),
            },
        }
    } else if url == spec_create_post_url() {
        match spec_dec_create_post(body) {
            None => (s, Err(Error::ExecutionError(ExecError::MalformedTx))),
            Some(m) => match apply_create_post(s, m, signer) {
                Err(e) => (s, Err(Error::ExecutionError(e))),
                Ok((s2, id)) => (
                    spec_commit(s2),
                    Ok(spec_enc_create_post_response(MsgCreatePostResponseV { post_id: id })),
                ),
            },
        }
    } else if url == spec_edit_post_url() {
        match spec_dec_edit_post(body) {
            None => (s, Err(Error::ExecutionError(ExecError::MalformedTx))),
            Some(m) => match apply_edit_post(s, m, signer) {
                Err(e) => (s, Err(Error::ExecutionError(e))),
                Ok(s2) => (
                    spec_commit(s2),
                    Ok(spec_enc_edit_post_response(MsgEditPostResponseV {  })),
                ),
            },
        }
    } else if url == spec_delete_post_url() {
        match spec_dec_delete_post(body) {
            None => (s, Err(Error::ExecutionError(ExecError::MalformedTx))),
            Some(m) => match apply_delete_post(s, m, signer) {
                Err(e) => (s, Err(Error::ExecutionError(e))),
                Ok(s2) => (
                    spec_commit(s2),
                    Ok(spec_enc_delete_post_response(MsgDeletePostResponseV {  })),
                ),
            },
        }
    } else {
        (s, Err(Error::ExecutionError(ExecError::UnknownMessageType)))
    }
}

// ---------------------------------------------------------------------------
// Query: route on the endpoint path, read the committed state
// ---------------------------------------------------------------------------

/// The endpoints this chain serves.
#[derive(Debug, Clone, Copy, PartialEq, Eq, Structural)]
pub enum QueryEndpoint {
    /// One subspace by id; absence is an error.
    Subspace,
    /// One post by subspace and post id; absence is an error.
    Post,
    /// Every post of one subspace; an unknown subspace yields an empty list.
    SubspacePosts,
}

/// Which endpoint a path names: routing looks at the path alone.
pub open spec fn route(path: Seq<u8>) -> Option<QueryEndpoint> {
    if path == spec_query_subspace_path() {
        Some(QueryEndpoint::Subspace)
    } else if path == spec_query_post_path() {
        Some(QueryEndpoint::Post)
    } else if path == spec_query_subspace_posts_path() {
        Some(QueryEndpoint::SubspacePosts)
    } else {
        None
    }
}

/// Outcome of one endpoint on one request against the committed state.
pub open spec fn eval_endpoint(ep: QueryEndpoint, s: StateV, req: Seq<u8>) -> Result<
    Seq<u8>,
    Error,
> {
    match ep {
        QueryEndpoint::Subspace => match spec_dec_query_subspace_request(req) {
            None => Err(Error::QueryError(QueryError::MalformedRequest)),
            Some(q) => match find_subspace(s.subspaces, q.subspace_id) {
                None => Err(Error::QueryError(QueryError::SubspaceNotFound)),
                Some(sub) => Ok(
                    spec_enc_query_subspace_response(QuerySubspaceResponseV { subspace: sub }),
                ),
            },
        },
        QueryEndpoint::Post => match spec_dec_query_post_request(req) {
            None => Err(Error::QueryError(QueryError::MalformedRequest)),
            Some(q) => match find_post(s.posts, q.subspace_id, q.post_id) {
                None => Err(Error::QueryError(QueryError::PostNotFound)),
                Some(p) => Ok(spec_enc_query_post_response(QueryPostResponseV { post: p })),
            },
        },
        QueryEndpoint::SubspacePosts => match spec_dec_query_subspace_posts_request(req) {
            None => Err(Error::QueryError(QueryError::MalformedRequest)),
            Some(q) => Ok(
                spec_enc_query_subspace_posts_response(
                    QuerySubspacePostsResponseV {
                        posts: posts_of_subspace(s.posts, q.subspace_id),
                    },
                ),
            ),
        },
    }
}

/// Outcome of one query: the path routes to its endpoint, or the query
/// fails; the request payload never takes part in routing.
pub open spec fn spec_query(s: StateV, path: Seq<u8>, req: Seq<u8>) -> Result<Seq<u8>, Error> {
    match route(path) {
        None => Err(Error::QueryError(QueryError::UnknownEndpoint)),
        Some(ep) => eval_endpoint(ep, s, req),
    }
}

/// Routing correctness: a query reaches exactly the endpoint its path
/// routes to, whatever the request payload holds; a path that routes
/// nowhere fails the same way for every payload.
pub proof fn lemma_query_routes_by_path(s: StateV, path: Seq<u8>, req1: Seq<u8>, req2: Seq<u8>)
    ensures
        route(path) is Some ==> spec_query(s, path, req1) == eval_endpoint(
            route(path)->Some_0,
            s,
            req1,
        ) && spec_query(s, path, req2) == eval_endpoint(route(path)->Some_0, s, req2),
        route(path) is None ==> spec_query(s, path, req1) == spec_query(s, path, req2),
{
}


// ---------------------------------------------------------------------------
// Lookup lemmas: scanning for the first match agrees with the recursive
// definitions above
// ---------------------------------------------------------------------------

pub proof fn lemma_find_subspace_at(ss: Seq<SubspaceV>, id: u64, k: int)
    requires
        0 <= k < ss.len(),
        ss[k].id == id,
        forall|j: int| 0 <= j < k ==> (#[trigger] ss[j]).id != id,
    ensures
        find_subspace(ss, id) == Some(ss[k]),
    decreases k,
{
    if k > 0 {
        assert(forall|j: int| 0 <= j < k - 1 ==> ss.skip(1)[j] == ss[j + 1]);
        lemma_find_subspace_at(ss.skip(1), id, k - 1);
    }
}

pub proof fn lemma_find_subspace_none(ss: Seq<SubspaceV>, id: u64)
    requires
        forall|j: int| 0 <= j < ss.len() ==> (#[trigger] ss[j]).id != id,
    ensures
        find_subspace(ss, id) is None,
    decreases ss.len(),
{
    if ss.len() > 0 {
        assert(forall|j: int| 0 <= j < ss.skip(1).len() ==> ss.skip(1)[j] == ss[j + 1]);
        lemma_find_subspace_none(ss.skip(1), id);
    }
}

pub proof fn lemma_update_subspace_at(ss: Seq<SubspaceV>, id: u64, k: int, sub: SubspaceV)
    requires
        0 <= k < ss.len(),
        ss[k].id == id,
        forall|j: int| 0 <= j < k ==> (#[trigger] ss[j]).id != id,
    ensures
        update_subspace(ss, id, sub) == ss.update(k, sub),
    decreases k,
{
    if k == 0 {
        assert(seq![sub] + ss.skip(1) =~= ss.update(0, sub));
    } else {
        assert(forall|j: int| 0 <= j < k - 1 ==> ss.skip(1)[j] == ss[j + 1]);
        lemma_update_subspace_at(ss.skip(1), id, k - 1, sub);
        assert(seq![ss[0]] + ss.skip(1).update(k - 1, sub) =~= ss.update(k, sub));
    }
}

pub proof fn lemma_remove_subspace_at(ss: Seq<SubspaceV>, id: u64, k: int)
    requires
        0 <= k < ss.len(),
        ss[k].id == id,
        forall|j: int| 0 <= j < k ==> (#[trigger] ss[j]).id != id,
    ensures
        remove_subspace(ss, id) == ss.remove(k),
    decreases k,
{
    if k == 0 {
        assert(ss.skip(1) =~= ss.remove(0));
    } else {
        assert(forall|j: int| 0 <= j < k - 1 ==> ss.skip(1)[j] == ss[j + 1]);
        lemma_remove_subspace_at(ss.skip(1), id, k - 1);
        assert(seq![ss[0]] + ss.skip(1).remove(k - 1) =~= ss.remove(k));
    }
}

pub proof fn lemma_find_subspace_push(ss: Seq<SubspaceV>, id: u64, x: SubspaceV)
    ensures
        find_subspace(ss.push(x), id) == (match find_subspace(ss, id) {
            Some(sub) => Some(sub),
            None => if x.id == id {
                Some(x)
            } else {
                None::<SubspaceV>
            },
        }),
    decreases ss.len(),
{
    if ss.len() == 0 {
        assert(ss.push(x).len() == 1);
        assert(ss.push(x)[0] == x);
        assert(ss.push(x).skip(1) =~= Seq::<SubspaceV>::empty());
        assert(find_subspace(Seq::<SubspaceV>::empty(), id) is None);
        assert(find_subspace(ss, id) is None);
    } else {
        assert(ss.push(x)[0] == ss[0]);
        assert(ss.push(x).skip(1) =~= ss.skip(1).push(x));
        lemma_find_subspace_push(ss.skip(1), id, x);
        assert(find_subspace(ss.push(x), id) == if ss[0].id == id {
            Some(ss[0])
        } else {
            find_subspace(ss.skip(1).push(x), id)
        });
    }
}

pub proof fn lemma_find_post_at(ps: Seq<PostV>, sid: u64, pid: u64, k: int)
    requires
        0 <= k < ps.len(),
        ps[k].subspace_id == sid && ps[k].id == pid,
        forall|j: int|
            0 <= j < k ==> !((#[trigger] ps[j]).subspace_id == sid && ps[j].id == pid),
    ensures
        find_post(ps, sid, pid) == Some(ps[k]),
    decreases k,
{
    if k > 0 {
        assert(forall|j: int| 0 <= j < k - 1 ==> ps.skip(1)[j] == ps[j + 1]);
        lemma_find_post_at(ps.skip(1), sid, pid, k - 1);
    }
}

pub proof fn lemma_find_post_none(ps: Seq<PostV>, sid: u64, pid: u64)
    requires
        forall|j: int|
            0 <= j < ps.len() ==> !((#[trigger] ps[j]).subspace_id == sid && ps[j].id == pid),
    ensures
        find_post(ps, sid, pid) is None,
    decreases ps.len(),
{
    if ps.len() > 0 {
        assert(forall|j: int| 0 <= j < ps.skip(1).len() ==> ps.skip(1)[j] == ps[j + 1]);
        lemma_find_post_none(ps.skip(1), sid, pid);
    }
}

pub proof fn lemma_update_post_at(ps: Seq<PostV>, sid: u64, pid: u64, k: int, p: PostV)
    requires
        0 <= k < ps.len(),
        ps[k].subspace_id == sid && ps[k].id == pid,
        forall|j: int|
            0 <= j < k ==> !((#[trigger] ps[j]).subspace_id == sid && ps[j].id == pid),
    ensures
        update_post(ps, sid, pid, p) == ps.update(k, p),
    decreases k,
{
    if k == 0 {
        assert(seq![p] + ps.skip(1) =~= ps.update(0, p));
    } else {
        assert(forall|j: int| 0 <= j < k - 1 ==> ps.skip(1)[j] == ps[j + 1]);
        lemma_update_post_at(ps.skip(1), sid, pid, k - 1, p);
        assert(seq![ps[0]] + ps.skip(1).update(k - 1, p) =~= ps.update(k, p));
    }
}

pub proof fn lemma_remove_post_at(ps: Seq<PostV>, sid: u64, pid: u64, k: int)
    requires
        0 <= k < ps.len(),
        ps[k].subspace_id == sid && ps[k].id == pid,
        forall|j: int|
            0 <= j < k ==> !((#[trigger] ps[j]).subspace_id == sid && ps[j].id == pid),
    ensures
        remove_post(ps, sid, pid) == ps.remove(k),
    decreases k,
{
    if k == 0 {
        assert(ps.skip(1) =~= ps.remove(0));
    } else {
        assert(forall|j: int| 0 <= j < k - 1 ==> ps.skip(1)[j] == ps[j + 1]);
        lemma_remove_post_at(ps.skip(1), sid, pid, k - 1);
        assert(seq![ps[0]] + ps.skip(1).remove(k - 1) =~= ps.remove(k));
    }
}

pub proof fn lemma_find_post_push(ps: Seq<PostV>, sid: u64, pid: u64, x: PostV)
    ensures
        find_post(ps.push(x), sid, pid) == (match find_post(ps, sid, pid) {
            Some(p) => Some(p),
            None => if x.subspace_id == sid && x.id == pid {
                Some(x)
            } else {
                None::<PostV>
            },
        }),
    decreases ps.len(),
{
    if ps.len() == 0 {
        assert(ps.push(x).len() == 1);
        assert(ps.push(x)[0] == x);
        assert(ps.push(x).skip(1) =~= Seq::<PostV>::empty());
        assert(find_post(Seq::<PostV>::empty(), sid, pid) is None);
        assert(find_post(ps, sid, pid) is None);
    } else {
        assert(ps.push(x)[0] == ps[0]);
        assert(ps.push(x).skip(1) =~= ps.skip(1).push(x));
        lemma_find_post_push(ps.skip(1), sid, pid, x);
        assert(find_post(ps.push(x), sid, pid) == if ps[0].subspace_id == sid && ps[0].id == pid {
            Some(ps[0])
        } else {
            find_post(ps.skip(1).push(x), sid, pid)
        });
    }
}

pub proof fn lemma_posts_of_subspace_push(ps: Seq<PostV>, sid: u64, x: PostV)
    ensures
        posts_of_subspace(ps.push(x), sid) == if x.subspace_id == sid {
            posts_of_subspace(ps, sid).push(x)
        } else {
            posts_of_subspace(ps, sid)
        },
    decreases ps.len(),
{
    if ps.len() == 0 {
        assert(ps.push(x)[0] == x);
        assert(ps.push(x).skip(1) =~= Seq::<PostV>::empty());
        if x.subspace_id == sid {
            assert(seq![x] + posts_of_subspace(Seq::<PostV>::empty(), sid)
                =~= posts_of_subspace(ps, sid).push(x));
        }
    } else {
        assert(ps.push(x)[0] == ps[0]);
        assert(ps.push(x).skip(1) =~= ps.skip(1).push(x));
        lemma_posts_of_subspace_push(ps.skip(1), sid, x);
        if x.subspace_id == sid && ps[0].subspace_id == sid {
            assert(seq![ps[0]] + posts_of_subspace(ps.skip(1), sid).push(x)
                =~= (seq![ps[0]] + posts_of_subspace(ps.skip(1), sid)).push(x));
        }
    }
}

pub proof fn lemma_posts_without_subspace_push(ps: Seq<PostV>, sid: u64, x: PostV)
    ensures
        posts_without_subspace(ps.push(x), sid) == if x.subspace_id == sid {
            posts_without_subspace(ps, sid)
        } else {
            posts_without_subspace(ps, sid).push(x)
        },
    decreases ps.len(),
{
    if ps.len() == 0 {
        assert(ps.push(x)[0] == x);
        assert(ps.push(x).skip(1) =~= Seq::<PostV>::empty());
        if x.subspace_id != sid {
            assert(seq![x] + posts_without_subspace(Seq::<PostV>::empty(), sid)
                =~= posts_without_subspace(ps, sid).push(x));
        }
    } else {
        assert(ps.push(x)[0] == ps[0]);
        assert(ps.push(x).skip(1) =~= ps.skip(1).push(x));
        lemma_posts_without_subspace_push(ps.skip(1), sid, x);
        if x.subspace_id != sid && ps[0].subspace_id != sid {
            assert(seq![ps[0]] + posts_without_subspace(ps.skip(1), sid).push(x)
                =~= (seq![ps[0]] + posts_without_subspace(ps.skip(1), sid)).push(x));
        }
    }
}

/// Every property that holds of each stored post holds of each post the
/// subspace filter keeps.
pub proof fn lemma_posts_of_subspace_all(ps: Seq<PostV>, sid: u64, p: spec_fn(PostV) -> bool)
    requires
        forall|i: int| 0 <= i < ps.len() ==> p(#[trigger] ps[i]),
    ensures
        forall|j: int|
            0 <= j < posts_of_subspace(ps, sid).len() ==> p(
                #[trigger] posts_of_subspace(ps, sid)[j],
            ),
    decreases ps.len(),
{
    if ps.len() > 0 {
        assert(forall|i: int| 0 <= i < ps.skip(1).len() ==> ps.skip(1)[i] == ps[i + 1]);
        lemma_posts_of_subspace_all(ps.skip(1), sid, p);
        let res = posts_of_subspace(ps, sid);
        let rest = posts_of_subspace(ps.skip(1), sid);
        assert forall|j: int| 0 <= j < res.len() implies p(res[j]) by {
            if ps[0].subspace_id == sid {
                if j == 0 {
                    assert(res[j] == ps[0]);
                } else {
                    assert(res[j] == rest[j - 1]);
                }
            } else {
                assert(res[j] == rest[j]);
            }
        }
    }
}

/// Every property that holds of each stored post holds of each post left
/// after removing one subspace's posts.
pub proof fn lemma_posts_without_subspace_all(ps: Seq<PostV>, sid: u64, p: spec_fn(PostV) -> bool)
    requires
        forall|i: int| 0 <= i < ps.len() ==> p(#[trigger] ps[i]),
    ensures
        forall|j: int|
            0 <= j < posts_without_subspace(ps, sid).len() ==> p(
                #[trigger] posts_without_subspace(ps, sid)[j],
            ),
    decreases ps.len(),
{
    if ps.len() > 0 {
        assert(forall|i: int| 0 <= i < ps.skip(1).len() ==> ps.skip(1)[i] == ps[i + 1]);
        lemma_posts_without_subspace_all(ps.skip(1), sid, p);
        let res = posts_without_subspace(ps, sid);
        let rest = posts_without_subspace(ps.skip(1), sid);
        assert forall|j: int| 0 <= j < res.len() implies p(res[j]) by {
            if ps[0].subspace_id == sid {
                assert(res[j] == rest[j]);
            } else {
                if j == 0 {
                    assert(res[j] == ps[0]);
                } else {
                    assert(res[j] == rest[j - 1]);
                }
            }
        }
    }
}

/// A found subspace is one of the stored subspaces.
pub proof fn lemma_find_subspace_mem(ss: Seq<SubspaceV>, id: u64)
    ensures
        find_subspace(ss, id) is Some ==> exists|i: int|
            0 <= i < ss.len() && ss[i] == find_subspace(ss, id)->Some_0,
    decreases ss.len(),
{
    if ss.len() > 0 && ss[0].id != id {
        lemma_find_subspace_mem(ss.skip(1), id);
        if find_subspace(ss.skip(1), id) is Some {
            let i = choose|i: int|
                0 <= i < ss.skip(1).len() && ss.skip(1)[i] == find_subspace(ss.skip(1), id)->Some_0;
            assert(ss[i + 1] == find_subspace(ss, id)->Some_0);
        }
    }
}

/// A found post is one of the stored posts.
pub proof fn lemma_find_post_mem(ps: Seq<PostV>, sid: u64, pid: u64)
    ensures
        find_post(ps, sid, pid) is Some ==> exists|i: int|
            0 <= i < ps.len() && ps[i] == find_post(ps, sid, pid)->Some_0,
    decreases ps.len(),
{
    if ps.len() > 0 && !(ps[0].subspace_id == sid && ps[0].id == pid) {
        lemma_find_post_mem(ps.skip(1), sid, pid);
        if find_post(ps.skip(1), sid, pid) is Some {
            let i = choose|i: int|
                0 <= i < ps.skip(1).len() && ps.skip(1)[i] == find_post(
                    ps.skip(1),
                    sid,
                    pid,
                )->Some_0;
            assert(ps[i + 1] == find_post(ps, sid, pid)->Some_0);
        }
    }
}


// ---------------------------------------------------------------------------
// Executable lookups
// ---------------------------------------------------------------------------

impl DesmosTestApp {
    /// Whether `addr` is an account this runner handed out.
    fn is_known_account(&self, addr: &Vec<u8>) -> (r: bool)
        ensures
            r == has_account(self@, addr@),
    {
        let mut i: usize = 0;
        while i < self.accounts.len()
            invariant
                0 <= i <= self.accounts.len(),
                self@.accounts.len() == self.accounts.len(),
                forall|j: int| 0 <= j < i ==> self@.accounts[j] != addr@,
            decreases self.accounts.len() - i,
        {
            proof {
                assert(self@.accounts[i as int] =~= self.accounts[i as int]@);
            }
            if crate::wire::bytes_eq(&self.accounts[i], addr) {
                proof {
                    assert(self@.accounts[i as int] == addr@);
                }
                return true;
            }
            i = i + 1;
        }
        proof {
            assert(!has_account(self@, addr@));
        }
        false
    }

    /// Index of the first stored subspace with the given id.
    fn find_subspace_idx(&self, id: u64) -> (r: Option<usize>)
        ensures
            match r {
                Some(k) => {
                    &&& 0 <= k < self@.subspaces.len()
                    &&& self@.subspaces[k as int].id == id
                    &&& forall|j: int|
                        0 <= j < k ==> (#[trigger] self@.subspaces[j]).id != id
                    &&& find_subspace(self@.subspaces, id) == Some(self@.subspaces[k as int])
                },
                None => find_subspace(self@.subspaces, id) is None,
            },
    {
        let mut i: usize = 0;
        while i < self.subspaces.len()
            invariant
                0 <= i <= self.subspaces.len(),
                self@.subspaces.len() == self.subspaces.len(),
                forall|j: int| 0 <= j < i ==> (#[trigger] self@.subspaces[j]).id != id,
            decreases self.subspaces.len() - i,
        {
            proof {
                assert(self@.subspaces[i as int] == self.subspaces[i as int]@);
            }
            if self.subspaces[i].id == id {
                proof {
                    lemma_find_subspace_at(self@.subspaces, id, i as int);
                }
                return Some(i);
            }
            i = i + 1;
        }
        proof {
            lemma_find_subspace_none(self@.subspaces, id);
        }
        None
    }

    /// Index of the first stored post with the given subspace and post id.
    fn find_post_idx(&self, sid: u64, pid: u64) -> (r: Option<usize>)
        ensures
            match r {
                Some(k) => {
                    &&& 0 <= k < self@.posts.len()
                    &&& self@.posts[k as int].subspace_id == sid && self@.posts[k as int].id
                        == pid
                    &&& forall|j: int|
                        0 <= j < k ==> !((#[trigger] self@.posts[j]).subspace_id == sid
                            && self@.posts[j].id == pid)
                    &&& find_post(self@.posts, sid, pid) == Some(self@.posts[k as int])
                },
                None => find_post(self@.posts, sid, pid) is None,
            },
    {
        let mut i: usize = 0;
        while i < self.posts.len()
            invariant
                0 <= i <= self.posts.len(),
                self@.posts.len() == self.posts.len(),
                forall|j: int|
                    0 <= j < i ==> !((#[trigger] self@.posts[j]).subspace_id == sid
                        && self@.posts[j].id == pid),
            decreases self.posts.len() - i,
        {
            proof {
                assert(self@.posts[i as int] == self.posts[i as int]@);
            }
            if self.posts[i].subspace_id == sid && self.posts[i].id == pid {
                proof {
                    lemma_find_post_at(self@.posts, sid, pid, i as int);
                }
                return Some(i);
            }
            i = i + 1;
        }
        proof {
            lemma_find_post_none(self@.posts, sid, pid);
        }
        None
    }

    /// Copies of every stored post of the given subspace, in storage order.
    fn collect_subspace_posts(&self, sid: u64) -> (r: Vec<crate::posts::Post>)
        ensures
            r.deep_view() == posts_of_subspace(self@.posts, sid),
    {
        let mut out: Vec<crate::posts::Post> = Vec::new();
        assert(out.deep_view() =~= Seq::<PostV>::empty());
        assert(self@.posts.take(0) =~= Seq::<PostV>::empty());
        let mut i: usize = 0;
        while i < self.posts.len()
            invariant
                0 <= i <= self.posts.len(),
                self@.posts.len() == self.posts.len(),
                out.deep_view() == posts_of_subspace(self@.posts.take(i as int), sid),
            decreases self.posts.len() - i,
        {
            proof {
                assert(self@.posts[i as int] == self.posts[i as int]@);
                assert(self@.posts.take(i + 1) =~= self@.posts.take(i as int).push(
                    self@.posts[i as int],
                ));
                lemma_posts_of_subspace_push(
                    self@.posts.take(i as int),
                    sid,
                    self@.posts[i as int],
                );
            }
            if self.posts[i].subspace_id == sid {
                let ghost before = out.deep_view();
                out.push(crate::posts::clone_post(&self.posts[i]));
                proof {
                    assert(out.deep_view() =~= before.push(self@.posts[i as int]));
                }
            }
            i = i + 1;
        }
        proof {
            assert(self@.posts.take(self.posts.len() as int) =~= self@.posts);
        }
        out
    }

    /// Copies of every stored post outside the given subspace, in order.
    fn collect_posts_without(&self, sid: u64) -> (r: Vec<crate::posts::Post>)
        ensures
            r.deep_view() == posts_without_subspace(self@.posts, sid),
    {
        let mut out: Vec<crate::posts::Post> = Vec::new();
        assert(out.deep_view() =~= Seq::<PostV>::empty());
        assert(self@.posts.take(0) =~= Seq::<PostV>::empty());
        let mut i: usize = 0;
        while i < self.posts.len()
            invariant
                0 <= i <= self.posts.len(),
                self@.posts.len() == self.posts.len(),
                out.deep_view() == posts_without_subspace(self@.posts.take(i as int), sid),
            decreases self.posts.len() - i,
        {
            proof {
                assert(self@.posts[i as int] == self.posts[i as int]@);
                assert(self@.posts.take(i + 1) =~= self@.posts.take(i as int).push(
                    self@.posts[i as int],
                ));
                lemma_posts_without_subspace_push(
                    self@.posts.take(i as int),
                    sid,
                    self@.posts[i as int],
                );
            }
            if self.posts[i].subspace_id != sid {
                let ghost before = out.deep_view();
                out.push(crate::posts::clone_post(&self.posts[i]));
                proof {
                    assert(out.deep_view() =~= before.push(self@.posts[i as int]));
                }
            }
            i = i + 1;
        }
        proof {
            assert(self@.posts.take(self.posts.len() as int) =~= self@.posts);
        }
        out
    }
}


// ---------------------------------------------------------------------------
// Executable message semantics
// ---------------------------------------------------------------------------

impl DesmosTestApp {
    /// Applies a create-subspace message, mirroring its semantics exactly.
    fn do_create_subspace(&mut self, m: MsgCreateSubspace, signer: &Vec<u8>) -> (r: Result<
        u64,
        ExecError,
    >)
        requires
            old(self).wf(),
        ensures
            final(self).wf(),
            match (r, apply_create_subspace(old(self)@, m@, signer@)) {
                (Ok(id), Ok(p)) => id == p.1 && final(self)@ == p.0,
                (Err(e), Err(e2)) => e == e2 && final(self)@ == old(self)@,
                _ => false,
            },
    {
        if !bytes_eq(&m.creator, signer) {
            return Err(ExecError::WrongSigner);
        }
        if m.name.len() == 0 {
            return Err(ExecError::EmptyName);
        }
        if m.name.len() > MAX_TEXT_LEN || m.description.len() > MAX_TEXT_LEN || m.owner.len()
            > MAX_TEXT_LEN || m.creator.len() > MAX_TEXT_LEN {
            return Err(ExecError::ValueTooLong);
        }
        if self.next_subspace_id == u64::MAX {
            return Err(ExecError::StoreFull);
        }
        let id = self.next_subspace_id;
        let owner = if m.owner.len() == 0 {
            clone_bytes(&m.creator)
        } else {
            m.owner
        };
        let sub = Subspace {
            id,
            name: m.name,
            description: m.description,
            owner,
            creator: m.creator,
        };
        let ghost subv = sub@;
        self.subspaces.push(sub);
        self.next_subspace_id = id + 1;
        proof {
            assert(self@ =~~= (StateV {
                subspaces: old(self)@.subspaces.push(subv),
                next_subspace_id: (id + 1) as u64,
                ..old(self)@
            }));
            let s2 = self@;
            assert forall|i: int|
                0 <= i < s2.subspaces.len() implies subspace_v_wf(#[trigger] s2.subspaces[i])
                && 1 <= s2.subspaces[i].id < s2.next_subspace_id by {
                if i < old(self)@.subspaces.len() {
                    assert(s2.subspaces[i] == old(self)@.subspaces[i]);
                } else {
                    assert(s2.subspaces[i] == subv);
                }
            }
        }
        Ok(id)
    }

    /// Applies an edit-subspace message, mirroring its semantics exactly.
    fn do_edit_subspace(&mut self, m: MsgEditSubspace, signer: &Vec<u8>) -> (r: Result<
        (),
        ExecError,
    >)
        requires
            old(self).wf(),
        ensures
            final(self).wf(),
            match (r, apply_edit_subspace(old(self)@, m@, signer@)) {
                (Ok(u), Ok(s2)) => final(self)@ == s2,
                (Err(e), Err(e2)) => e == e2 && final(self)@ == old(self)@,
                _ => false,
            },
    {
        let k = match self.find_subspace_idx(m.subspace_id) {
            None => {
                return Err(ExecError::SubspaceNotFound);
            },
            Some(k) => k,
        };
        if !bytes_eq(&self.subspaces[k].owner, signer) {
            proof {
                assert(self.subspaces[k as int].owner@ == self@.subspaces[k as int].owner);
            }
            return Err(ExecError::NotAllowed);
        }
        if m.name.len() == 0 {
            return Err(ExecError::EmptyName);
        }
        if m.name.len() > MAX_TEXT_LEN || m.description.len() > MAX_TEXT_LEN || m.owner.len()
            > MAX_TEXT_LEN {
            return Err(ExecError::ValueTooLong);
        }
        proof {
            assert(self.subspaces[k as int].owner@ == self@.subspaces[k as int].owner);
        }
        let owner = if m.owner.len() == 0 {
            clone_bytes(&self.subspaces[k].owner)
        } else {
            m.owner
        };
        let sub2 = Subspace {
            id: self.subspaces[k].id,
            name: m.name,
            description: m.description,
            owner,
            creator: clone_bytes(&self.subspaces[k].creator),
        };
        let ghost subv = sub2@;
        let ghost oldstate = self@;
        self.subspaces[k] = sub2;
        proof {
            lemma_update_subspace_at(oldstate.subspaces, m@.subspace_id, k as int, subv);
            assert(self@ =~~= (StateV {
                subspaces: update_subspace(oldstate.subspaces, m@.subspace_id, subv),
                ..oldstate
            }));
            let s2 = self@;
            assert forall|i: int|
                0 <= i < s2.subspaces.len() implies subspace_v_wf(#[trigger] s2.subspaces[i])
                && 1 <= s2.subspaces[i].id < s2.next_subspace_id by {
                if i == k {
                    assert(s2.subspaces[i] == subv);
                    assert(subv.id == oldstate.subspaces[k as int].id);
                } else {
                    assert(s2.subspaces[i] == oldstate.subspaces[i]);
                }
            }
        }
        Ok(())
    }

    /// Applies a delete-subspace message, mirroring its semantics exactly.
    fn do_delete_subspace(&mut self, m: MsgDeleteSubspace, signer: &Vec<u8>) -> (r: Result<
        (),
        ExecError,
    >)
        requires
            old(self).wf(),
        ensures
            final(self).wf(),
            match (r, apply_delete_subspace(old(self)@, m@, signer@)) {
                (Ok(u), Ok(s2)) => final(self)@ == s2,
                (Err(e), Err(e2)) => e == e2 && final(self)@ == old(self)@,
                _ => false,
            },
    {
        let k = match self.find_subspace_idx(m.subspace_id) {
            None => {
                return Err(ExecError::SubspaceNotFound);
            },
            Some(k) => k,
        };
        if !bytes_eq(&self.subspaces[k].owner, signer) {
            proof {
                assert(self.subspaces[k as int].owner@ == self@.subspaces[k as int].owner);
            }
            return Err(ExecError::NotAllowed);
        }
        proof {
            assert(self.subspaces[k as int].owner@ == self@.subspaces[k as int].owner);
        }
        let ghost oldstate = self@;
        let kept = self.collect_posts_without(m.subspace_id);
        self.subspaces.remove(k);
        self.posts = kept;
        proof {
            lemma_remove_subspace_at(oldstate.subspaces, m@.subspace_id, k as int);
            assert(self@ =~~= (StateV {
                subspaces: remove_subspace(oldstate.subspaces, m@.subspace_id),
                posts: posts_without_subspace(oldstate.posts, m@.subspace_id),
                ..oldstate
            }));
            let s2 = self@;
            assert forall|i: int|
                0 <= i < s2.subspaces.len() implies subspace_v_wf(#[trigger] s2.subspaces[i])
                && 1 <= s2.subspaces[i].id < s2.next_subspace_id by {
                if i < k {
                    assert(s2.subspaces[i] == oldstate.subspaces[i]);
                } else {
                    assert(s2.subspaces[i] == oldstate.subspaces[i + 1]);
                }
            }
            lemma_posts_without_subspace_all(
                oldstate.posts,
                m@.subspace_id,
                |p: PostV| post_v_wf(p) && 1 <= p.id < oldstate.next_post_id,
            );
        }
        Ok(())
    }

    /// Applies a create-post message, mirroring its semantics exactly.
    fn do_create_post(&mut self, m: MsgCreatePost, signer: &Vec<u8>) -> (r: Result<
        u64,
        ExecError,
    >)
        requires
            old(self).wf(),
        ensures
            final(self).wf(),
            match (r, apply_create_post(old(self)@, m@, signer@)) {
                (Ok(id), Ok(p)) => id == p.1 && final(self)@ == p.0,
                (Err(e), Err(e2)) => e == e2 && final(self)@ == old(self)@,
                _ => false,
            },
    {
        if !bytes_eq(&m.author, signer) {
            return Err(ExecError::WrongSigner);
        }
        if m.text.len() > MAX_TEXT_LEN || m.author.len() > MAX_TEXT_LEN {
            return Err(ExecError::ValueTooLong);
        }
        if self.find_subspace_idx(m.subspace_id).is_none() {
            return Err(ExecError::SubspaceNotFound);
        }
        if self.next_post_id == u64::MAX {
            return Err(ExecError::StoreFull);
        }
        let id = self.next_post_id;
        let p = crate::posts::Post {
            subspace_id: m.subspace_id,
            section_id: m.section_id,
            id,
            text: m.text,
            author: m.author,
        };
        let ghost pv = p@;
        self.posts.push(p);
        self.next_post_id = id + 1;
        proof {
            assert(self@ =~~= (StateV {
                posts: old(self)@.posts.push(pv),
                next_post_id: (id + 1) as u64,
                ..old(self)@
            }));
            let s2 = self@;
            assert forall|i: int|
                0 <= i < s2.posts.len() implies post_v_wf(#[trigger] s2.posts[i]) && 1
                <= s2.posts[i].id < s2.next_post_id by {
                if i < old(self)@.posts.len() {
                    assert(s2.posts[i] == old(self)@.posts[i]);
                } else {
                    assert(s2.posts[i] == pv);
                }
            }
        }
        Ok(id)
    }

    /// Applies an edit-post message, mirroring its semantics exactly.
    fn do_edit_post(&mut self, m: MsgEditPost, signer: &Vec<u8>) -> (r: Result<(), ExecError>)
        requires
            old(self).wf(),
        ensures
            final(self).wf(),
            match (r, apply_edit_post(old(self)@, m@, signer@)) {
                (Ok(u), Ok(s2)) => final(self)@ == s2,
                (Err(e), Err(e2)) => e == e2 && final(self)@ == old(self)@,
                _ => false,
            },
    {
        let k = match self.find_post_idx(m.subspace_id, m.post_id) {
            None => {
                return Err(ExecError::PostNotFound);
            },
            Some(k) => k,
        };
        if !bytes_eq(&self.posts[k].author, signer) {
            proof {
                assert(self.posts[k as int].author@ == self@.posts[k as int].author);
            }
            return Err(ExecError::NotAllowed);
        }
        if m.text.len() > MAX_TEXT_LEN {
            return Err(ExecError::ValueTooLong);
        }
        proof {
            assert(self.posts[k as int].author@ == self@.posts[k as int].author);
        }
        let p2 = crate::posts::Post {
            subspace_id: self.posts[k].subspace_id,
            section_id: self.posts[k].section_id,
            id: self.posts[k].id,
            text: m.text,
            author: clone_bytes(&self.posts[k].author),
        };
        let ghost pv = p2@;
        let ghost oldstate = self@;
        self.posts[k] = p2;
        proof {
            lemma_update_post_at(oldstate.posts, m@.subspace_id, m@.post_id, k as int, pv);
            assert(self@ =~~= (StateV {
                posts: update_post(oldstate.posts, m@.subspace_id, m@.post_id, pv),
                ..oldstate
            }));
            let s2 = self@;
            assert forall|i: int|
                0 <= i < s2.posts.len() implies post_v_wf(#[trigger] s2.posts[i]) && 1
                <= s2.posts[i].id < s2.next_post_id by {
                if i == k {
                    assert(s2.posts[i] == pv);
                    assert(pv.id == oldstate.posts[k as int].id);
                } else {
                    assert(s2.posts[i] == oldstate.posts[i]);
                }
            }
        }
        Ok(())
    }

    /// Applies a delete-post message, mirroring its semantics exactly.
    fn do_delete_post(&mut self, m: MsgDeletePost, signer: &Vec<u8>) -> (r: Result<
        (),
        ExecError,
    >)
        requires
            old(self).wf(),
        ensures
            final(self).wf(),
            match (r, apply_delete_post(old(self)@, m@, signer@)) {
                (Ok(u), Ok(s2)) => final(self)@ == s2,
                (Err(e), Err(e2)) => e == e2 && final(self)@ == old(self)@,
                _ => false,
            },
    {
        let k = match self.find_post_idx(m.subspace_id, m.post_id) {
            None => {
                return Err(ExecError::PostNotFound);
            },
            Some(k) => k,
        };
        if !bytes_eq(&self.posts[k].author, signer) {
            proof {
                assert(self.posts[k as int].author@ == self@.posts[k as int].author);
            }
            return Err(ExecError::NotAllowed);
        }
        proof {
            assert(self.posts[k as int].author@ == self@.posts[k as int].author);
        }
        let ghost oldstate = self@;
        self.posts.remove(k);
        proof {
            lemma_remove_post_at(oldstate.posts, m@.subspace_id, m@.post_id, k as int);
            assert(self@ =~~= (StateV {
                posts: remove_post(oldstate.posts, m@.subspace_id, m@.post_id),
                ..oldstate
            }));
            let s2 = self@;
            assert forall|i: int|
                0 <= i < s2.posts.len() implies post_v_wf(#[trigger] s2.posts[i]) && 1
                <= s2.posts[i].id < s2.next_post_id by {
                if i < k {
                    assert(s2.posts[i] == oldstate.posts[i]);
                } else {
                    assert(s2.posts[i] == oldstate.posts[i + 1]);
                }
            }
        }
        Ok(())
    }

    /// Commits one block: the height and the clock advance, saturating.
    fn commit(&mut self)
        requires
            old(self).wf(),
        ensures
            final(self).wf(),
            final(self)@ == spec_commit(old(self)@),
    {
        if self.block_height < i64::MAX {
            self.block_height = self.block_height + 1;
        }
        if self.block_time_nanos <= i64::MAX - BLOCK_NANOS {
            self.block_time_nanos = self.block_time_nanos + BLOCK_NANOS;
        } else {
            self.block_time_nanos = i64::MAX;
        }
        assert(self@ =~= spec_commit(old(self)@));
    }
}


// ---------------------------------------------------------------------------
// The runner's two entry points
// ---------------------------------------------------------------------------

impl DesmosTestApp {
    /// Submits one encoded transaction envelope signed by `signer`: the
    /// envelope is decoded, dispatched on its type URL, applied under the
    /// message's own rules, and committed as one block.  The returned bytes
    /// are the encoded response of the operation's declared response type.
    /// A rejected transaction changes nothing.
    pub fn execute_any(&mut self, tx: &Vec<u8>, signer: &SigningAccount) -> (r: Result<
        Vec<u8>,
        Error,
    >)
        requires
            old(self).wf(),
        ensures
            final(self).wf(),
            final(self)@ == spec_execute(old(self)@, tx@, signer.address@).0,
            match (r, spec_execute(old(self)@, tx@, signer.address@).1) {
                (Ok(b), Ok(bv)) => b@ == bv,
                (Err(e), Err(ev)) => e == ev,
                _ => false,
            },
    {
        if !self.is_known_account(&signer.address) {
            return Err(Error::ExecutionError(ExecError::UnknownSigner));
        }
        let any = match decode_any(tx) {
            None => {
                return Err(Error::ExecutionError(ExecError::MalformedTx));
            },
            Some(a) => a,
        };
        let url_create_subspace = create_subspace_url();
        let url_edit_subspace = edit_subspace_url();
        let url_delete_subspace = delete_subspace_url();
        let url_create_post = create_post_url();
        let url_edit_post = edit_post_url();
        let url_delete_post = delete_post_url();
        if bytes_eq(&any.type_url, &url_create_subspace) {
            let m = match decode_create_subspace(&any.value) {
                None => {
                    return Err(Error::ExecutionError(ExecError::MalformedTx));
                },
                Some(m) => m,
            };
            match self.do_create_subspace(m, &signer.address) {
                Err(e) => Err(Error::ExecutionError(e)),
                Ok(id) => {
                    self.commit();
                    Ok(encode_create_subspace_response(&MsgCreateSubspaceResponse {
                        subspace_id: id,
                    }))
                },
            }
        } else if bytes_eq(&any.type_url, &url_edit_subspace) {
            let m = match decode_edit_subspace(&any.value) {
                None => {
                    return Err(Error::ExecutionError(ExecError::MalformedTx));
                },
                Some(m) => m,
            };
            match self.do_edit_subspace(m, &signer.address) {
                Err(e) => Err(Error::ExecutionError(e)),
                Ok(u) => {
                    self.commit();
                    Ok(encode_edit_subspace_response(&MsgEditSubspaceResponse {  }))
                },
            }
        } else if bytes_eq(&any.type_url, &url_delete_subspace) {
            let m = match decode_delete_subspace(&any.value) {
                None => {
                    return Err(Error::ExecutionError(ExecError::MalformedTx));
                },
                Some(m) => m,
            };
            match self.do_delete_subspace(m, &signer.address) {
                Err(e) => Err(Error::ExecutionError(e)),
                Ok(u) => {
                    self.commit();
                    Ok(encode_delete_subspace_response(&MsgDeleteSubspaceResponse {  }))
                },
            }
        } else if bytes_eq(&any.type_url, &url_create_post) {
            let m = match decode_create_post(&any.value) {
                None => {
                    return Err(Error::ExecutionError(ExecError::MalformedTx));
                },
                Some(m) => m,
            };
            match self.do_create_post(m, &signer.address) {
                Err(e) => Err(Error::ExecutionError(e)),
                Ok(id) => {
                    self.commit();
                    Ok(encode_create_post_response(&MsgCreatePostResponse { post_id: id }))
                },
            }
        } else if bytes_eq(&any.type_url, &url_edit_post) {
            let m = match decode_edit_post(&any.value) {
                None => {
                    return Err(Error::ExecutionError(ExecError::MalformedTx));
                },
                Some(m) => m,
            };
            match self.do_edit_post(m, &signer.address) {
                Err(e) => Err(Error::ExecutionError(e)),
                Ok(u) => {
                    self.commit();
                    Ok(encode_edit_post_response(&MsgEditPostResponse {  }))
                },
            }
        } else if bytes_eq(&any.type_url, &url_delete_post) {
            let m = match decode_delete_post(&any.value) {
                None => {
                    return Err(Error::ExecutionError(ExecError::MalformedTx));
                },
                Some(m) => m,
            };
            match self.do_delete_post(m, &signer.address) {
                Err(e) => Err(Error::ExecutionError(e)),
                Ok(u) => {
                    self.commit();
                    Ok(encode_delete_post_response(&MsgDeletePostResponse {  }))
                },
            }
        } else {
            Err(Error::ExecutionError(ExecError::UnknownMessageType))
        }
    }

    /// Answers one encoded query: the path routes to its endpoint, the
    /// request is decoded, and the committed state is read.  No block is
    /// produced and the state never changes.
    pub fn query_raw(&self, path: &Vec<u8>, req: &Vec<u8>) -> (r: Result<Vec<u8>, Error>)
        requires
            self.wf(),
        ensures
            match (r, spec_query(self@, path@, req@)) {
                (Ok(b), Ok(bv)) => b@ == bv,
                (Err(e), Err(ev)) => e == ev,
                _ => false,
            },
    {
        let path_subspace = crate::subspaces::query_subspace_path();
        let path_post = crate::posts::query_post_path();
        let path_subspace_posts = crate::posts::query_subspace_posts_path();
        if bytes_eq(path, &path_subspace) {
            let q = match decode_query_subspace_request(req) {
                None => {
                    return Err(Error::QueryError(QueryError::MalformedRequest));
                },
                Some(q) => q,
            };
            match self.find_subspace_idx(q.subspace_id) {
                None => Err(Error::QueryError(QueryError::SubspaceNotFound)),
                Some(k) => {
                    proof {
                        assert(self.subspaces[k as int]@ == self@.subspaces[k as int]);
                    }
                    let resp = QuerySubspaceResponse {
                        subspace: crate::subspaces::clone_subspace(&self.subspaces[k]),
                    };
                    Ok(encode_query_subspace_response(&resp))
                },
            }
        } else if bytes_eq(path, &path_post) {
            let q = match decode_query_post_request(req) {
                None => {
                    return Err(Error::QueryError(QueryError::MalformedRequest));
                },
                Some(q) => q,
            };
            match self.find_post_idx(q.subspace_id, q.post_id) {
                None => Err(Error::QueryError(QueryError::PostNotFound)),
                Some(k) => {
                    proof {
                        assert(self.posts[k as int]@ == self@.posts[k as int]);
                    }
                    let resp = QueryPostResponse {
                        post: crate::posts::clone_post(&self.posts[k]),
                    };
                    Ok(encode_query_post_response(&resp))
                },
            }
        } else if bytes_eq(path, &path_subspace_posts) {
            let q = match decode_query_subspace_posts_request(req) {
                None => {
                    return Err(Error::QueryError(QueryError::MalformedRequest));
                },
                Some(q) => q,
            };
            let resp = QuerySubspacePostsResponse {
                posts: self.collect_subspace_posts(q.subspace_id),
            };
            Ok(encode_query_subspace_posts_response(&resp))
        } else {
            Err(Error::QueryError(QueryError::UnknownEndpoint))
        }
    }
}


/// The six type URLs name six different operations.
pub proof fn lemma_type_urls_distinct()
    ensures
        spec_create_subspace_url() != spec_edit_subspace_url(),
        spec_create_subspace_url() != spec_delete_subspace_url(),
        spec_create_subspace_url() != spec_create_post_url(),
        spec_create_subspace_url() != spec_edit_post_url(),
        spec_create_subspace_url() != spec_delete_post_url(),
        spec_edit_subspace_url() != spec_delete_subspace_url(),
        spec_edit_subspace_url() != spec_create_post_url(),
        spec_edit_subspace_url() != spec_edit_post_url(),
        spec_edit_subspace_url() != spec_delete_post_url(),
        spec_delete_subspace_url() != spec_create_post_url(),
        spec_delete_subspace_url() != spec_edit_post_url(),
        spec_delete_subspace_url() != spec_delete_post_url(),
        spec_create_post_url() != spec_edit_post_url(),
        spec_create_post_url() != spec_delete_post_url(),
        spec_edit_post_url() != spec_delete_post_url(),
{
    reveal_strlit("/desmos.subspaces.v3.MsgCreateSubspace");
    reveal_strlit("/desmos.subspaces.v3.MsgEditSubspace");
    reveal_strlit("/desmos.subspaces.v3.MsgDeleteSubspace");
    reveal_strlit("/desmos.posts.v3.MsgCreatePost");
    reveal_strlit("/desmos.posts.v3.MsgEditPost");
    reveal_strlit("/desmos.posts.v3.MsgDeletePost");
    assert(vstd::string::is_ascii("/desmos.subspaces.v3.MsgCreateSubspace"));
    assert(vstd::string::is_ascii("/desmos.subspaces.v3.MsgEditSubspace"));
    assert(vstd::string::is_ascii("/desmos.subspaces.v3.MsgDeleteSubspace"));
    assert(vstd::string::is_ascii("/desmos.posts.v3.MsgCreatePost"));
    assert(vstd::string::is_ascii("/desmos.posts.v3.MsgEditPost"));
    assert(vstd::string::is_ascii("/desmos.posts.v3.MsgDeletePost"));
    vstd::string::is_ascii_spec_bytes("/desmos.subspaces.v3.MsgCreateSubspace");
    vstd::string::is_ascii_spec_bytes("/desmos.subspaces.v3.MsgEditSubspace");
    vstd::string::is_ascii_spec_bytes("/desmos.subspaces.v3.MsgDeleteSubspace");
    vstd::string::is_ascii_spec_bytes("/desmos.posts.v3.MsgCreatePost");
    vstd::string::is_ascii_spec_bytes("/desmos.posts.v3.MsgEditPost");
    vstd::string::is_ascii_spec_bytes("/desmos.posts.v3.MsgDeletePost");
    assert(spec_create_subspace_url().len() == 38);
    assert(spec_edit_subspace_url().len() == 36);
    assert(spec_delete_subspace_url().len() == 38);
    assert(spec_create_post_url().len() == 30);
    assert(spec_edit_post_url().len() == 28);
    assert(spec_delete_post_url().len() == 30);
    assert(spec_create_subspace_url()[24] == 'C' as u8);
    assert(spec_delete_subspace_url()[24] == 'D' as u8);
    assert(spec_create_post_url()[20] == 'C' as u8);
    assert(spec_delete_post_url()[20] == 'D' as u8);
}

/// The three endpoint paths name three different endpoints.
pub proof fn lemma_query_paths_distinct()
    ensures
        spec_query_subspace_path() != spec_query_post_path(),
        spec_query_subspace_path() != spec_query_subspace_posts_path(),
        spec_query_post_path() != spec_query_subspace_posts_path(),
{
    reveal_strlit("/desmos.subspaces.v3.Query/Subspace");
    reveal_strlit("/desmos.posts.v3.Query/Post");
    reveal_strlit("/desmos.posts.v3.Query/SubspacePosts");
    assert(vstd::string::is_ascii("/desmos.subspaces.v3.Query/Subspace"));
    assert(vstd::string::is_ascii("/desmos.posts.v3.Query/Post"));
    assert(vstd::string::is_ascii("/desmos.posts.v3.Query/SubspacePosts"));
    vstd::string::is_ascii_spec_bytes("/desmos.subspaces.v3.Query/Subspace");
    vstd::string::is_ascii_spec_bytes("/desmos.posts.v3.Query/Post");
    vstd::string::is_ascii_spec_bytes("/desmos.posts.v3.Query/SubspacePosts");
    assert(spec_query_subspace_path().len() == 35);
    assert(spec_query_post_path().len() == 27);
    assert(spec_query_subspace_posts_path().len() == 36);
}


// ---------------------------------------------------------------------------
// Laws of the execute path
// ---------------------------------------------------------------------------

/// An execute call with an unknown signer is rejected with an execution
/// error, commits nothing, and leaves the outcome of every subsequent
/// query exactly as it was.
pub proof fn lemma_invalid_signer_execute(
    s: StateV,
    tx: Seq<u8>,
    signer: Seq<u8>,
    path: Seq<u8>,
    req: Seq<u8>,
)
    requires
        !has_account(s, signer),
    ensures
        spec_execute(s, tx, signer).0 == s,
        spec_execute(s, tx, signer).1 == Err::<Seq<u8>, Error>(
            Error::ExecutionError(ExecError::UnknownSigner),
        ),
        spec_query(spec_execute(s, tx, signer).0, path, req) == spec_query(s, path, req),
{
}

/// Create-read consistency: a subspace queried by the id returned from
/// its creation carries exactly the fields that were submitted, with the
/// creator standing in for an unnamed owner.
pub proof fn lemma_create_then_query_subspace(s: StateV, m: MsgCreateSubspaceV, signer: Seq<u8>)
    requires
        state_wf(s),
        apply_create_subspace(s, m, signer) is Ok,
    ensures
        ({
            let p = apply_create_subspace(s, m, signer)->Ok_0;
            let s1 = spec_commit(p.0);
            &&& find_subspace(s1.subspaces, p.1) is Some
            &&& find_subspace(s1.subspaces, p.1)->Some_0.name == m.name
            &&& find_subspace(s1.subspaces, p.1)->Some_0.description == m.description
            &&& find_subspace(s1.subspaces, p.1)->Some_0.owner == (if m.owner.len() == 0 {
                m.creator
            } else {
                m.owner
            })
            &&& find_subspace(s1.subspaces, p.1)->Some_0.creator == m.creator
        }),
{
    let p = apply_create_subspace(s, m, signer)->Ok_0;
    let id = p.1;
    assert(forall|j: int|
        0 <= j < s.subspaces.len() ==> (#[trigger] s.subspaces[j]).id != id);
    lemma_find_subspace_none(s.subspaces, id);
    let sub = SubspaceV {
        id,
        name: m.name,
        description: m.description,
        owner: if m.owner.len() == 0 {
            m.creator
        } else {
            m.owner
        },
        creator: m.creator,
    };
    lemma_find_subspace_push(s.subspaces, id, sub);
}

/// Read-after-write ordering: when one accepted execute creates a
/// subspace and a second accepted execute creates a post inside it, a
/// query against the state after the second call sees both writes.
pub proof fn lemma_sequential_writes_visible(
    s: StateV,
    m1: MsgCreateSubspaceV,
    m2: MsgCreatePostV,
    signer1: Seq<u8>,
    signer2: Seq<u8>,
)
    requires
        state_wf(s),
        apply_create_subspace(s, m1, signer1) is Ok,
        ({
            let s1 = spec_commit(apply_create_subspace(s, m1, signer1)->Ok_0.0);
            apply_create_post(s1, m2, signer2) is Ok
        }),
    ensures
        ({
            let p1 = apply_create_subspace(s, m1, signer1)->Ok_0;
            let s1 = spec_commit(p1.0);
            let p2 = apply_create_post(s1, m2, signer2)->Ok_0;
            let s2 = spec_commit(p2.0);
            &&& find_subspace(s2.subspaces, p1.1) is Some
            &&& find_subspace(s2.subspaces, p1.1)->Some_0.name == m1.name
            &&& find_post(s2.posts, m2.subspace_id, p2.1) is Some
            &&& find_post(s2.posts, m2.subspace_id, p2.1)->Some_0.text == m2.text
            &&& find_post(s2.posts, m2.subspace_id, p2.1)->Some_0.author == m2.author
        }),
{
    let p1 = apply_create_subspace(s, m1, signer1)->Ok_0;
    let s1 = spec_commit(p1.0);
    let p2 = apply_create_post(s1, m2, signer2)->Ok_0;
    let s2 = spec_commit(p2.0);
    let sid = p1.1;
    assert(forall|j: int|
        0 <= j < s.subspaces.len() ==> (#[trigger] s.subspaces[j]).id != sid);
    lemma_find_subspace_none(s.subspaces, sid);
    let sub = SubspaceV {
        id: sid,
        name: m1.name,
        description: m1.description,
        owner: if m1.owner.len() == 0 {
            m1.creator
        } else {
            m1.owner
        },
        creator: m1.creator,
    };
    lemma_find_subspace_push(s.subspaces, sid, sub);
    assert(s2.subspaces == s1.subspaces);
    let pid = p2.1;
    assert(s1.posts == s.posts);
    assert(forall|j: int|
        0 <= j < s1.posts.len() ==> !((#[trigger] s1.posts[j]).subspace_id == m2.subspace_id
            && s1.posts[j].id == pid));
    lemma_find_post_none(s1.posts, m2.subspace_id, pid);
    let post = PostV {
        subspace_id: m2.subspace_id,
        section_id: m2.section_id,
        id: pid,
        text: m2.text,
        author: m2.author,
    };
    lemma_find_post_push(s1.posts, m2.subspace_id, pid, post);
}

/// A create-post message naming a subspace the chain does not hold is
/// rejected with exactly the subspace-not-found reason, so no partial
/// entity can become queryable.
pub proof fn lemma_missing_parent_rejected(s: StateV, m: MsgCreatePostV, signer: Seq<u8>)
    requires
        find_subspace(s.subspaces, m.subspace_id) is None,
        m.author == signer,
        m.text.len() <= MAX_TEXT_LEN,
        m.author.len() <= MAX_TEXT_LEN,
    ensures
        apply_create_post(s, m, signer) == Err::<(StateV, u64), ExecError>(
            ExecError::SubspaceNotFound,
        ),
{
}

} // verus!
