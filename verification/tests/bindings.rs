use desmos_test_tube::posts::{
    MsgCreatePost, MsgDeletePost, MsgEditPost, Posts, QueryPostRequest,
    QuerySubspacePostsRequest,
};
use desmos_test_tube::runner::{
    Coin, DesmosTestApp, Error, ExecError, QueryError, SigningAccount,
};
use desmos_test_tube::subspaces::{
    MsgCreateSubspace, MsgDeleteSubspace, MsgEditSubspace, QuerySubspaceRequest, Subspaces,
};
use desmos_test_tube::wire::{encode_any, WireAny};

fn b(s: &str) -> Vec<u8> {
    s.as_bytes().to_vec()
}

fn coins(amount: u128, denom: &str) -> Vec<Coin> {
    vec![Coin { denom: denom.as_bytes().to_vec(), amount }]
}

/// Creates a subspace named `test` owned by `account` and one post with
/// text `test post` inside it; returns their ids.
fn setup_test_environment(app: &mut DesmosTestApp, account: &SigningAccount) -> (u64, u64) {
    let created_subspace = Subspaces::create_subspace(
        app,
        MsgCreateSubspace {
            name: b("test"),
            description: b("test subspace"),
            owner: account.address(),
            creator: account.address(),
        },
        account,
    )
    .unwrap()
    .subspace_id;

    let created_post = Posts::create_post(
        app,
        MsgCreatePost {
            subspace_id: created_subspace,
            section_id: 0,
            text: b("test post"),
            author: account.address(),
        },
        account,
    )
    .unwrap()
    .post_id;

    (created_subspace, created_post)
}

#[test]
fn test_subspace_management() {
    let mut app = DesmosTestApp::new();
    let account = app.init_account(&coins(100_000_000_000, "udsm")).unwrap();

    let subspace_id = Subspaces::create_subspace(
        &mut app,
        MsgCreateSubspace {
            name: b("test"),
            description: Vec::new(),
            owner: account.address(),
            creator: account.address(),
        },
        &account,
    )
    .unwrap()
    .subspace_id;

    Subspaces::edit_subspace(
        &mut app,
        MsgEditSubspace {
            subspace_id,
            name: b("New name"),
            description: b("New description"),
            owner: Vec::new(),
            signer: account.address(),
        },
        &account,
    )
    .unwrap();

    let subspace = Subspaces::query_subspace(&app, &QuerySubspaceRequest { subspace_id })
        .unwrap()
        .subspace;
    assert_eq!(subspace.name, b("New name"));
    assert_eq!(subspace.description, b("New description"));

    Subspaces::delete_subspace(
        &mut app,
        MsgDeleteSubspace { subspace_id, signer: account.address() },
        &account,
    )
    .unwrap();

    let res = Subspaces::query_subspace(&app, &QuerySubspaceRequest { subspace_id });
    assert_eq!(res, Err(Error::QueryError(QueryError::SubspaceNotFound)));
}

#[test]
fn test_post_manipulation() {
    let mut app = DesmosTestApp::new();
    let account = app.init_account(&coins(100_000_000_000, "udsm")).unwrap();
    let (subspace_id, created_post) = setup_test_environment(&mut app, &account);

    Posts::edit_post(
        &mut app,
        MsgEditPost {
            subspace_id,
            post_id: created_post,
            text: b("new content"),
            editor: account.address(),
        },
        &account,
    )
    .unwrap();

    let post = Posts::query_post(
        &app,
        &QueryPostRequest { subspace_id, post_id: created_post },
    )
    .unwrap()
    .post;
    assert_eq!(post.text, b("new content"));

    Posts::delete_post(
        &mut app,
        MsgDeletePost { subspace_id, post_id: created_post, signer: account.address() },
        &account,
    )
    .unwrap();

    let res = Posts::query_post(
        &app,
        &QueryPostRequest { subspace_id, post_id: created_post },
    );
    assert_eq!(res, Err(Error::QueryError(QueryError::PostNotFound)));
}

#[test]
fn test_query_subspace_posts() {
    let mut app = DesmosTestApp::new();
    let account = app.init_account(&coins(100_000_000_000, "udsm")).unwrap();
    let (subspace_id, created_post_id) = setup_test_environment(&mut app, &account);

    let posts = Posts::query_subspace_posts(
        &app,
        &QuerySubspacePostsRequest { subspace_id },
    )
    .unwrap()
    .posts;

    assert_eq!(1, posts.len());
    assert_eq!(created_post_id, posts[0].id);
    assert_eq!(b("test post"), posts[0].text);
}

#[test]
fn test_query_post() {
    let mut app = DesmosTestApp::new();
    let account = app.init_account(&coins(100_000_000_000, "udsm")).unwrap();
    let (subspace_id, created_post_id) = setup_test_environment(&mut app, &account);

    let post = Posts::query_post(
        &app,
        &QueryPostRequest { subspace_id, post_id: created_post_id },
    )
    .unwrap()
    .post;

    assert_eq!(created_post_id, post.id);
    assert_eq!(b("test post"), post.text);
}

#[test]
fn test_create_read_consistency() {
    let mut app = DesmosTestApp::new();
    let account = app.init_account(&coins(100_000_000_000, "udsm")).unwrap();

    let subspace_id = Subspaces::create_subspace(
        &mut app,
        MsgCreateSubspace {
            name: b("test"),
            description: b("test subspace"),
            owner: Vec::new(),
            creator: account.address(),
        },
        &account,
    )
    .unwrap()
    .subspace_id;

    let subspace = Subspaces::query_subspace(&app, &QuerySubspaceRequest { subspace_id })
        .unwrap()
        .subspace;
    assert_eq!(subspace.id, subspace_id);
    assert_eq!(subspace.name, b("test"));
    assert_eq!(subspace.description, b("test subspace"));
    // an unnamed owner defaults to the creator
    assert_eq!(subspace.owner, account.address());
    assert_eq!(subspace.creator, account.address());
}

#[test]
fn test_invalid_signer_rejected_without_effect() {
    let mut app = DesmosTestApp::new();
    let stranger = SigningAccount { address: b("desmos1nobody") };

    let res = Subspaces::create_subspace(
        &mut app,
        MsgCreateSubspace {
            name: b("test"),
            description: Vec::new(),
            owner: Vec::new(),
            creator: b("desmos1nobody"),
        },
        &stranger,
    );
    assert_eq!(res, Err(Error::ExecutionError(ExecError::UnknownSigner)));

    // nothing became queryable
    let res = Subspaces::query_subspace(&app, &QuerySubspaceRequest { subspace_id: 1 });
    assert_eq!(res, Err(Error::QueryError(QueryError::SubspaceNotFound)));
}

#[test]
fn test_sequential_writes_both_visible() {
    let mut app = DesmosTestApp::new();
    let account = app.init_account(&coins(100_000_000_000, "udsm")).unwrap();
    let (subspace_id, post_id) = setup_test_environment(&mut app, &account);

    // after the second execute, a query reflects both writes
    let subspace = Subspaces::query_subspace(&app, &QuerySubspaceRequest { subspace_id })
        .unwrap()
        .subspace;
    assert_eq!(subspace.name, b("test"));
    let post = Posts::query_post(&app, &QueryPostRequest { subspace_id, post_id })
        .unwrap()
        .post;
    assert_eq!(post.text, b("test post"));
}

#[test]
fn test_missing_parent_rejected_without_effect() {
    let mut app = DesmosTestApp::new();
    let account = app.init_account(&coins(100_000_000_000, "udsm")).unwrap();

    let res = Posts::create_post(
        &mut app,
        MsgCreatePost {
            subspace_id: 9999,
            section_id: 0,
            text: b("test post"),
            author: account.address(),
        },
        &account,
    );
    assert_eq!(res, Err(Error::ExecutionError(ExecError::SubspaceNotFound)));

    // no partial entity is queryable afterwards
    let posts = Posts::query_subspace_posts(
        &app,
        &QuerySubspacePostsRequest { subspace_id: 9999 },
    )
    .unwrap()
    .posts;
    assert!(posts.is_empty());
    let res = Posts::query_post(&app, &QueryPostRequest { subspace_id: 9999, post_id: 1 });
    assert_eq!(res, Err(Error::QueryError(QueryError::PostNotFound)));
}

#[test]
fn test_empty_name_rejected() {
    let mut app = DesmosTestApp::new();
    let account = app.init_account(&coins(100_000_000_000, "udsm")).unwrap();

    let res = Subspaces::create_subspace(
        &mut app,
        MsgCreateSubspace {
            name: Vec::new(),
            description: Vec::new(),
            owner: Vec::new(),
            creator: account.address(),
        },
        &account,
    );
    assert_eq!(res, Err(Error::ExecutionError(ExecError::EmptyName)));
}

#[test]
fn test_wrong_signer_rejected() {
    let mut app = DesmosTestApp::new();
    let accounts = app
        .init_accounts(&coins(100_000_000_000, "udsm"), 2)
        .unwrap();

    let res = Subspaces::create_subspace(
        &mut app,
        MsgCreateSubspace {
            name: b("test"),
            description: Vec::new(),
            owner: Vec::new(),
            creator: accounts[1].address(),
        },
        &accounts[0],
    );
    assert_eq!(res, Err(Error::ExecutionError(ExecError::WrongSigner)));
}

#[test]
fn test_edit_by_stranger_rejected() {
    let mut app = DesmosTestApp::new();
    let accounts = app
        .init_accounts(&coins(100_000_000_000, "udsm"), 2)
        .unwrap();
    let (subspace_id, _) = setup_test_environment(&mut app, &accounts[0]);

    let res = Subspaces::edit_subspace(
        &mut app,
        MsgEditSubspace {
            subspace_id,
            name: b("taken over"),
            description: Vec::new(),
            owner: Vec::new(),
            signer: accounts[1].address(),
        },
        &accounts[1],
    );
    assert_eq!(res, Err(Error::ExecutionError(ExecError::NotAllowed)));

    // the subspace is untouched
    let subspace = Subspaces::query_subspace(&app, &QuerySubspaceRequest { subspace_id })
        .unwrap()
        .subspace;
    assert_eq!(subspace.name, b("test"));
}

#[test]
fn test_oversized_field_rejected() {
    let mut app = DesmosTestApp::new();
    let account = app.init_account(&coins(100_000_000_000, "udsm")).unwrap();
    let (subspace_id, _) = setup_test_environment(&mut app, &account);

    let res = Posts::create_post(
        &mut app,
        MsgCreatePost {
            subspace_id,
            section_id: 0,
            text: vec![0x61; 65537],
            author: account.address(),
        },
        &account,
    );
    assert_eq!(res, Err(Error::ExecutionError(ExecError::ValueTooLong)));
}

#[test]
fn test_malformed_transaction_rejected() {
    let mut app = DesmosTestApp::new();
    let account = app.init_account(&coins(100_000_000_000, "udsm")).unwrap();

    let res = app.execute_any(&vec![0xff, 0xff, 0xff], &account);
    assert_eq!(res, Err(Error::ExecutionError(ExecError::MalformedTx)));
}

#[test]
fn test_unknown_message_type_rejected() {
    let mut app = DesmosTestApp::new();
    let account = app.init_account(&coins(100_000_000_000, "udsm")).unwrap();

    let tx = encode_any(&WireAny {
        type_url: b("/desmos.profiles.v3.MsgSaveProfile"),
        value: Vec::new(),
    });
    let res = app.execute_any(&tx, &account);
    assert_eq!(
        res,
        Err(Error::ExecutionError(ExecError::UnknownMessageType))
    );
}

#[test]
fn test_unknown_endpoint_rejected() {
    let app = DesmosTestApp::new();

    let res = app.query_raw(&b("/desmos.reports.v1.Query/Params"), &Vec::new());
    assert_eq!(res, Err(Error::QueryError(QueryError::UnknownEndpoint)));
}

#[test]
fn test_routing_ignores_payload_shape() {
    let mut app = DesmosTestApp::new();
    let account = app.init_account(&coins(100_000_000_000, "udsm")).unwrap();
    let (subspace_id, _) = setup_test_environment(&mut app, &account);

    // a post-shaped request sent to the subspace-posts endpoint still
    // reaches the subspace-posts endpoint: field one is read as the
    // subspace id and the list comes back
    let post_shaped = desmos_test_tube::posts::encode_query_post_request(
        &QueryPostRequest { subspace_id, post_id: 1 },
    );
    let path = desmos_test_tube::posts::query_subspace_posts_path();
    let raw = app.query_raw(&path, &post_shaped).unwrap();
    let resp = desmos_test_tube::posts::decode_query_subspace_posts_response(&raw).unwrap();
    assert_eq!(1, resp.posts.len());
}

#[test]
fn test_malformed_query_request_rejected() {
    let app = DesmosTestApp::new();

    let path = desmos_test_tube::subspaces::query_subspace_path();
    let res = app.query_raw(&path, &vec![0xff, 0xff]);
    assert_eq!(res, Err(Error::QueryError(QueryError::MalformedRequest)));
}

#[test]
fn test_decoders_reject_garbage() {
    assert!(desmos_test_tube::subspaces::decode_create_subspace(&vec![0xff]).is_none());
    assert!(desmos_test_tube::posts::decode_create_post(&vec![0x08]).is_none());
    assert!(desmos_test_tube::wire::decode_any(&vec![0x12]).is_none());
}
