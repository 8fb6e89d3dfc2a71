//! Holds the crate's verified codec against the published protobuf
//! encoders, byte for byte.

use prost::Message;

use desmos_test_tube::posts::{
    decode_create_post, encode_create_post, encode_post, encode_query_post_request,
    MsgCreatePost, Post, QueryPostRequest,
};
use desmos_test_tube::subspaces::{
    decode_create_subspace, decode_query_subspace_response, encode_create_subspace,
    encode_edit_subspace, encode_query_subspace_request, encode_query_subspace_response,
    MsgCreateSubspace, MsgEditSubspace, QuerySubspaceRequest, QuerySubspaceResponse, Subspace,
};
use desmos_test_tube::wire::{decode_any, encode_any, WireAny};

fn b(s: &str) -> Vec<u8> {
    s.as_bytes().to_vec()
}

#[test]
fn test_create_subspace_matches_published_encoding() {
    let ours = encode_create_subspace(&MsgCreateSubspace {
        name: b("test"),
        description: b("test subspace"),
        owner: b("desmos1qzskhrcjnkdz2ln4yeh6hs7dzsr8p9mjny9tqp"),
        creator: b("desmos1qzskhrcjnkdz2ln4yeh6hs7dzsr8p9mjny9tqp"),
    });
    let theirs = desmos_bindings::subspaces::types::MsgCreateSubspace {
        name: "test".to_string(),
        description: "test subspace".to_string(),
        owner: "desmos1qzskhrcjnkdz2ln4yeh6hs7dzsr8p9mjny9tqp".to_string(),
        creator: "desmos1qzskhrcjnkdz2ln4yeh6hs7dzsr8p9mjny9tqp".to_string(),
    }
    .encode_to_vec();
    assert_eq!(ours, theirs);
}

#[test]
fn test_create_subspace_defaults_match_published_encoding() {
    // proto3 omits fields holding their default value
    let ours = encode_create_subspace(&MsgCreateSubspace {
        name: b("test"),
        description: Vec::new(),
        owner: Vec::new(),
        creator: b("desmos1abc"),
    });
    let theirs = desmos_bindings::subspaces::types::MsgCreateSubspace {
        name: "test".to_string(),
        description: String::new(),
        owner: String::new(),
        creator: "desmos1abc".to_string(),
    }
    .encode_to_vec();
    assert_eq!(ours, theirs);
}

#[test]
fn test_edit_subspace_matches_published_encoding() {
    let ours = encode_edit_subspace(&MsgEditSubspace {
        subspace_id: 7,
        name: b("New name"),
        description: b("New description"),
        owner: Vec::new(),
        signer: b("desmos1abc"),
    });
    let theirs = desmos_bindings::subspaces::types::MsgEditSubspace {
        subspace_id: 7,
        name: "New name".to_string(),
        description: "New description".to_string(),
        owner: String::new(),
        signer: "desmos1abc".to_string(),
    }
    .encode_to_vec();
    assert_eq!(ours, theirs);
}

#[test]
fn test_create_post_matches_published_encoding() {
    let ours = encode_create_post(&MsgCreatePost {
        subspace_id: 1,
        section_id: 2,
        text: b("test post"),
        author: b("desmos1abc"),
    });
    let theirs = desmos_bindings::posts::types::MsgCreatePost {
        subspace_id: 1,
        section_id: 2,
        external_id: String::new(),
        text: "test post".to_string(),
        entities: None,
        tags: vec![],
        attachments: vec![],
        author: "desmos1abc".to_string(),
        conversation_id: 0,
        reply_settings: 0,
        referenced_posts: vec![],
    }
    .encode_to_vec();
    assert_eq!(ours, theirs);
}

#[test]
fn test_post_entity_matches_published_encoding() {
    let ours = encode_post(&Post {
        subspace_id: 1,
        section_id: 0,
        id: 3,
        text: b("test post"),
        author: b("desmos1abc"),
    });
    let theirs = desmos_bindings::posts::types::Post {
        subspace_id: 1,
        section_id: 0,
        id: 3,
        external_id: String::new(),
        text: "test post".to_string(),
        entities: None,
        tags: vec![],
        author: "desmos1abc".to_string(),
        conversation_id: 0,
        referenced_posts: vec![],
        reply_settings: 0,
        creation_date: None,
        last_edited_date: None,
        owner: String::new(),
    }
    .encode_to_vec();
    assert_eq!(ours, theirs);
}

#[test]
fn test_query_requests_match_published_encoding() {
    let ours = encode_query_subspace_request(&QuerySubspaceRequest { subspace_id: 42 });
    let theirs = desmos_bindings::subspaces::types::QuerySubspaceRequest { subspace_id: 42 }
        .encode_to_vec();
    assert_eq!(ours, theirs);

    let ours = encode_query_post_request(&QueryPostRequest { subspace_id: 1, post_id: 2 });
    let theirs = desmos_bindings::posts::types::QueryPostRequest { subspace_id: 1, post_id: 2 }
        .encode_to_vec();
    assert_eq!(ours, theirs);
}

#[test]
fn test_large_varints_match_published_encoding() {
    let ours = encode_query_subspace_request(&QuerySubspaceRequest {
        subspace_id: u64::MAX,
    });
    let theirs = desmos_bindings::subspaces::types::QuerySubspaceRequest {
        subspace_id: u64::MAX,
    }
    .encode_to_vec();
    assert_eq!(ours, theirs);

    let ours = encode_query_subspace_request(&QuerySubspaceRequest { subspace_id: 300 });
    let theirs =
        desmos_bindings::subspaces::types::QuerySubspaceRequest { subspace_id: 300 }
            .encode_to_vec();
    assert_eq!(ours, theirs);
}

#[test]
fn test_any_envelope_matches_published_encoding() {
    let inner = encode_create_subspace(&MsgCreateSubspace {
        name: b("test"),
        description: Vec::new(),
        owner: Vec::new(),
        creator: b("desmos1abc"),
    });
    let ours = encode_any(&WireAny {
        type_url: b("/desmos.subspaces.v3.MsgCreateSubspace"),
        value: inner.clone(),
    });
    let theirs = desmos_bindings::cosmos_types::Any {
        type_url: "/desmos.subspaces.v3.MsgCreateSubspace".to_string(),
        value: inner,
    }
    .encode_to_vec();
    assert_eq!(ours, theirs);
}

#[test]
fn test_decoder_reads_published_encoding() {
    let theirs = desmos_bindings::subspaces::types::MsgCreateSubspace {
        name: "test".to_string(),
        description: "test subspace".to_string(),
        owner: String::new(),
        creator: "desmos1abc".to_string(),
    }
    .encode_to_vec();
    let ours = decode_create_subspace(&theirs).unwrap();
    assert_eq!(ours.name, b("test"));
    assert_eq!(ours.description, b("test subspace"));
    assert_eq!(ours.owner, Vec::<u8>::new());
    assert_eq!(ours.creator, b("desmos1abc"));

    let theirs = desmos_bindings::posts::types::MsgCreatePost {
        subspace_id: 9,
        section_id: 0,
        external_id: String::new(),
        text: "hello".to_string(),
        entities: None,
        tags: vec![],
        attachments: vec![],
        author: "desmos1abc".to_string(),
        conversation_id: 0,
        reply_settings: 0,
        referenced_posts: vec![],
    }
    .encode_to_vec();
    let ours = decode_create_post(&theirs).unwrap();
    assert_eq!(ours.subspace_id, 9);
    assert_eq!(ours.text, b("hello"));
}

#[test]
fn test_envelope_round_trip() {
    let any = WireAny {
        type_url: b("/desmos.posts.v3.MsgCreatePost"),
        value: vec![8, 1, 34, 4, 116, 101, 115, 116],
    };
    let bytes = encode_any(&any);
    let back = decode_any(&bytes).unwrap();
    assert_eq!(back, any);
}

#[test]
fn test_query_response_matches_published_encoding() {
    let ours = encode_query_subspace_response(&QuerySubspaceResponse {
        subspace: Subspace {
            id: 1,
            name: b("test"),
            description: b("test subspace"),
            owner: b("desmos1abc"),
            creator: b("desmos1abc"),
        },
    });
    let theirs = desmos_bindings::subspaces::types::QuerySubspaceResponse {
        subspace: Some(desmos_bindings::subspaces::types::Subspace {
            id: 1,
            name: "test".to_string(),
            description: "test subspace".to_string(),
            treasury: String::new(),
            owner: "desmos1abc".to_string(),
            creator: "desmos1abc".to_string(),
            creation_time: None,
            additional_fee_tokens: vec![],
        }),
    }
    .encode_to_vec();
    assert_eq!(ours, theirs);

    let back = decode_query_subspace_response(&theirs).unwrap();
    assert_eq!(back.subspace.name, b("test"));
}
