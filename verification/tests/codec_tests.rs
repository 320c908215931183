use books_live::codec::{
    decode_frame, encode_init, encode_start, ClientMessageGQLInit, ClientMessageGQLPay,
    DecodeError, Payload, PayloadEmp, ServerEnvelope,
};
use books_live::session::{Session, SessionEvent, SessionState, SubscriptionRequest};
use books_live::store::{EntityStore, MutationEvent};

#[test]
fn decode_created_scenario() {
    let msg = "{\"type\":\"data\",\"payload\":{\"data\":{\"books\":{\"mutationType\":\"CREATED\",\"id\":\"42\",\"name\":\"Dune\",\"author\":\"Herbert\",\"points\":\"7\"}}}}";
    let r = decode_frame(msg, "books");
    assert_eq!(
        r,
        Ok(ServerEnvelope::Data(MutationEvent::Created {
            id: String::from("42"),
            name: String::from("Dune"),
            author: String::from("Herbert"),
            points: 7,
        }))
    );
    let mut store = EntityStore::new();
    if let Ok(ServerEnvelope::Data(ev)) = decode_frame(msg, "books") {
        store.apply(&ev);
    }
    assert_eq!(store.len(), 1);
    assert_eq!(store.get(0).id, String::from("42"));
    assert_eq!(store.get(0).name, String::from("Dune"));
    assert_eq!(store.get(0).points, 7);
}

#[test]
fn decode_malformed_json_is_error_and_store_unchanged() {
    let mut store = EntityStore::new();
    store.apply(&MutationEvent::Created {
        id: String::from("1"),
        name: String::from("a"),
        author: String::from("b"),
        points: 1,
    });
    let mut session = Session::new();
    assert!(session.register(SubscriptionRequest {
        id: String::from("s1"),
        query: String::from("subscription { books { id } }"),
    }));
    let _ = session.step(SessionEvent::StartRequested);
    let _ = session.step(SessionEvent::TransportOpened);
    assert_eq!(session.state(), SessionState::Open);
    let r = decode_frame("{not json", "books");
    assert_eq!(r, Err(DecodeError::MalformedMessage));
    // the malformed frame alone is dropped: store unchanged, session open
    assert_eq!(store.len(), 1);
    assert_eq!(store.get(0).id, String::from("1"));
    assert_eq!(session.state(), SessionState::Open);
}

#[test]
fn decode_connection_ack() {
    let r = decode_frame("{\"type\":\"connection_ack\"}", "books");
    assert_eq!(r, Ok(ServerEnvelope::ConnectionAck));
}

#[test]
fn decode_unknown_type_is_dropped() {
    let r = decode_frame("{\"type\":\"ka\",\"extra\":[1,2,null,true]}", "books");
    assert_eq!(r, Ok(ServerEnvelope::UnknownType));
}

#[test]
fn decode_unknown_mutation_is_dropped() {
    let msg = "{\"type\":\"data\",\"payload\":{\"data\":{\"books\":{\"mutationType\":\"MOVED\",\"id\":\"1\"}}}}";
    assert_eq!(decode_frame(msg, "books"), Ok(ServerEnvelope::UnknownMutation));
}

#[test]
fn decode_points_as_number() {
    let msg = "{\"type\":\"data\",\"payload\":{\"data\":{\"books\":{\"mutationType\":\"UPDATED\",\"id\":\"9\",\"name\":\"n\",\"author\":\"a\",\"points\":12}}}}";
    assert_eq!(
        decode_frame(msg, "books"),
        Ok(ServerEnvelope::Data(MutationEvent::Updated {
            id: String::from("9"),
            name: String::from("n"),
            author: String::from("a"),
            points: 12,
        }))
    );
}

#[test]
fn decode_deleted_needs_only_id() {
    let msg = "{\"type\":\"data\",\"payload\":{\"data\":{\"books\":{\"mutationType\":\"DELETED\",\"id\":\"9\"}}}}";
    assert_eq!(
        decode_frame(msg, "books"),
        Ok(ServerEnvelope::Data(MutationEvent::Deleted { id: String::from("9") }))
    );
}

#[test]
fn decode_missing_required_field_is_malformed() {
    // a CREATED record without an author
    let msg = "{\"type\":\"data\",\"payload\":{\"data\":{\"books\":{\"mutationType\":\"CREATED\",\"id\":\"1\",\"name\":\"n\",\"points\":1}}}}";
    assert_eq!(decode_frame(msg, "books"), Err(DecodeError::MalformedMessage));
}

#[test]
fn decode_missing_type_is_malformed() {
    assert_eq!(decode_frame("{\"a\":1}", "books"), Err(DecodeError::MalformedMessage));
    assert_eq!(decode_frame("{\"type\":5}", "books"), Err(DecodeError::MalformedMessage));
}

#[test]
fn decode_bad_points_is_malformed() {
    let neg = "{\"type\":\"data\",\"payload\":{\"data\":{\"books\":{\"mutationType\":\"CREATED\",\"id\":\"1\",\"name\":\"n\",\"author\":\"a\",\"points\":-3}}}}";
    assert_eq!(decode_frame(neg, "books"), Err(DecodeError::MalformedMessage));
    let text = "{\"type\":\"data\",\"payload\":{\"data\":{\"books\":{\"mutationType\":\"CREATED\",\"id\":\"1\",\"name\":\"n\",\"author\":\"a\",\"points\":\"x7\"}}}}";
    assert_eq!(decode_frame(text, "books"), Err(DecodeError::MalformedMessage));
}

#[test]
fn decode_tolerates_whitespace_and_field_order() {
    let msg = "{\n  \"payload\": {\"data\": {\"books\": {\"id\": \"3\", \"author\": \"a\", \"name\": \"n\", \"points\": 2, \"mutationType\": \"CREATED\"}}},\n  \"type\": \"data\"\n}";
    assert_eq!(
        decode_frame(msg, "books"),
        Ok(ServerEnvelope::Data(MutationEvent::Created {
            id: String::from("3"),
            name: String::from("n"),
            author: String::from("a"),
            points: 2,
        }))
    );
}

#[test]
fn decode_unescapes_string_values() {
    let msg = "{\"type\":\"data\",\"payload\":{\"data\":{\"books\":{\"mutationType\":\"CREATED\",\"id\":\"1\",\"name\":\"a\\\"b\\\\c\\nd\",\"author\":\"x\\ty\",\"points\":0}}}}";
    assert_eq!(
        decode_frame(msg, "books"),
        Ok(ServerEnvelope::Data(MutationEvent::Created {
            id: String::from("1"),
            name: String::from("a\"b\\c\nd"),
            author: String::from("x\ty"),
            points: 0,
        }))
    );
}

#[test]
fn decode_other_field_name() {
    let msg = "{\"type\":\"data\",\"payload\":{\"data\":{\"scores\":{\"mutationType\":\"DELETED\",\"id\":\"z\"}}}}";
    assert_eq!(
        decode_frame(msg, "scores"),
        Ok(ServerEnvelope::Data(MutationEvent::Deleted { id: String::from("z") }))
    );
    // the same frame under the wrong subscription field lacks the record
    assert_eq!(decode_frame(msg, "books"), Err(DecodeError::MalformedMessage));
}

#[test]
fn decode_rejects_trailing_garbage_and_fractions() {
    assert_eq!(decode_frame("{\"type\":\"connection_ack\"} x", "books"), Err(DecodeError::MalformedMessage));
    assert_eq!(decode_frame("{\"type\":\"connection_ack\"}{}", "books"), Err(DecodeError::MalformedMessage));
    assert_eq!(decode_frame("", "books"), Err(DecodeError::MalformedMessage));
    assert_eq!(decode_frame("{\"type\":\"t\",\"v\":1.5}", "books"), Err(DecodeError::MalformedMessage));
}

#[test]
fn encode_init_exact_text() {
    let msg = ClientMessageGQLInit {
        msg_type: String::from("connection_init"),
        payload: PayloadEmp {},
    };
    assert_eq!(encode_init(&msg), String::from("{\"type\":\"connection_init\",\"payload\":{}}"));
}

#[test]
fn encode_start_exact_text() {
    let msg = ClientMessageGQLPay {
        id: String::from("some_id"),
        msg_type: String::from("start"),
        payload: Payload { query: String::from("subscription { books { id } }") },
    };
    assert_eq!(
        encode_start(&msg),
        String::from(
            "{\"id\":\"some_id\",\"type\":\"start\",\"payload\":{\"query\":\"subscription { books { id } }\"}}"
        )
    );
}

#[test]
fn encode_start_escapes_query() {
    let msg = ClientMessageGQLPay {
        id: String::from("i\"d"),
        msg_type: String::from("start"),
        payload: Payload { query: String::from("a\"b\\c\nd") },
    };
    assert_eq!(
        encode_start(&msg),
        String::from("{\"id\":\"i\\\"d\",\"type\":\"start\",\"payload\":{\"query\":\"a\\\"b\\\\c\\nd\"}}")
    );
}

#[test]
fn encoded_start_decodes_as_valid_json() {
    // the encoder's output must itself be in the wire dialect: an envelope
    // of unknown type decodes as dropped, not as malformed
    let msg = ClientMessageGQLPay {
        id: String::from("s1"),
        msg_type: String::from("start"),
        payload: Payload { query: String::from("subscription \"q\"\n") },
    };
    let text = encode_start(&msg);
    assert_eq!(decode_frame(&text, "books"), Ok(ServerEnvelope::UnknownType));
}

#[test]
fn decode_unicode_escapes() {
    let msg = "{\"type\":\"data\",\"payload\":{\"data\":{\"books\":{\"mutationType\":\"CREATED\",\"id\":\"1\",\"name\":\"\\u0044une\",\"author\":\"He\\u0072bert\\u000a\",\"points\":1}}}}";
    assert_eq!(
        decode_frame(msg, "books"),
        Ok(ServerEnvelope::Data(MutationEvent::Created {
            id: String::from("1"),
            name: String::from("Dune"),
            author: String::from("He\u{72}bert\n"),
            points: 1,
        }))
    );
    // a lone surrogate is not a character
    assert_eq!(
        decode_frame("{\"type\":\"\\ud834\"}", "books"),
        Err(DecodeError::MalformedMessage)
    );
    // a truncated escape is malformed
    assert_eq!(decode_frame("{\"type\":\"\\u00\"}", "books"), Err(DecodeError::MalformedMessage));
}

#[test]
fn encode_escapes_control_characters_reversibly() {
    let msg = ClientMessageGQLPay {
        id: String::from("s"),
        msg_type: String::from("start"),
        payload: Payload { query: String::from("a\u{1}b\u{8}c") },
    };
    let text = encode_start(&msg);
    assert_eq!(
        text,
        String::from("{\"id\":\"s\",\"type\":\"start\",\"payload\":{\"query\":\"a\\u0001b\\bc\"}}")
    );
    // the codec reads its own escapes back
    assert_eq!(decode_frame(&text, "books"), Ok(ServerEnvelope::UnknownType));
}
