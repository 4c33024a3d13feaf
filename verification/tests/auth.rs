//! Who is let in, with real tokens.

use std::collections::BTreeMap;
use std::time::{SystemTime, UNIX_EPOCH};

use jsonwebtoken::{encode, Algorithm, EncodingKey, Header};

use sandcat::auth::{
    read_auth_header, AuthHeader, BodyRejection, JsonWithAuthExtractor, PathRejection,
    PathWithAuthExtractor, Rejection,
};
use sandcat::error::Error;

fn now() -> u64 {
    SystemTime::now().duration_since(UNIX_EPOCH).unwrap().as_secs()
}

fn token(secret: &str, expires: u64) -> String {
    let mut claims = BTreeMap::new();
    claims.insert("exp", expires);
    encode(&Header::default(), &claims, &EncodingKey::from_secret(secret.as_bytes())).unwrap()
}

fn json(header: Option<&str>, secret: &str) -> Result<(), Rejection> {
    let bytes = header.map(|text| text.as_bytes());
    JsonWithAuthExtractor::<u8>::authorize(bytes, "/users", secret, Ok(()))
}

fn path(header: Option<&str>, secret: &str) -> Result<(), Rejection> {
    let bytes = header.map(|text| text.as_bytes());
    PathWithAuthExtractor::<u8>::authorize(bytes, "/users", secret, Ok(()))
}

fn no_token() -> Rejection {
    Rejection { status: 401, error: Error::unauthorized_with_details("/users".to_string()) }
}

#[test]
fn headers_show_their_second_word() {
    let read = |text: &str| read_auth_header(Some(text.as_bytes()));
    assert_eq!(read_auth_header(None), AuthHeader::Missing);
    assert_eq!(read("Bearer a.b.c"), AuthHeader::Token("a.b.c".to_string()));
    assert_eq!(read("Bearer \t a.b.c  more"), AuthHeader::Token("a.b.c".to_string()));
    assert_eq!(read("BearerX a.b.c"), AuthHeader::Token("a.b.c".to_string()));
    assert_eq!(read("Bearer"), AuthHeader::NoToken);
    assert_eq!(read("Bearer  "), AuthHeader::NoToken);
    assert_eq!(read(""), AuthHeader::NotBearer);
    assert_eq!(read("bearer a.b.c"), AuthHeader::NotBearer);
    assert_eq!(read(" Bearer a.b.c"), AuthHeader::NotBearer);
    assert_eq!(read("Basic a.b.c"), AuthHeader::NotBearer);
    // a header that is not all visible counts as empty
    assert_eq!(read("Bearer a.b.ç"), AuthHeader::NotBearer);
    assert_eq!(read_auth_header(Some(b"Bearer a\n")), AuthHeader::NotBearer);
    assert_eq!(read_auth_header(Some(&[66, 127])), AuthHeader::NotBearer);
}

#[test]
fn good_tokens_are_let_in() {
    let header = format!("Bearer {}", token("secret", now() + 3600));
    assert_eq!(json(Some(&header), "secret"), Ok(()));
    assert_eq!(path(Some(&header), "secret"), Ok(()));
}

#[test]
fn requests_without_a_token_are_answered_alike() {
    for header in [None, Some("Basic abc"), Some("")] {
        assert_eq!(json(header, "secret"), Err(no_token()));
        assert_eq!(path(header, "secret"), Err(no_token()));
    }
}

#[test]
fn bad_tokens_are_answered_apart() {
    let wrong = format!("Bearer {}", token("other", now() + 3600));
    let complaint = "InvalidSignature".to_string();
    assert_eq!(
        json(Some(&wrong), "secret"),
        Err(Rejection { status: 500, error: Error::internal(complaint.clone()) })
    );
    assert_eq!(
        path(Some(&wrong), "secret"),
        Err(Rejection {
            status: 401,
            error: Error::unauthorized(complaint, "/users".to_string()),
        })
    );
}

#[test]
fn expired_and_broken_tokens_are_refused() {
    let expired = format!("Bearer {}", token("secret", now() - 3600));
    assert_eq!(
        json(Some(&expired), "secret"),
        Err(Rejection { status: 500, error: Error::internal("ExpiredSignature".to_string()) })
    );
    for broken in ["Bearer abc", "Bearer a.b", "Bearer a.b.c.d", "Bearer .."] {
        assert_eq!(json(Some(broken), "secret").unwrap_err().status, 500);
        assert_eq!(path(Some(broken), "secret").unwrap_err().status, 401);
    }
    let mut claims = BTreeMap::new();
    claims.insert("sub", 1u64);
    let key = EncodingKey::from_secret(b"secret");
    let timeless = encode(&Header::default(), &claims, &key).unwrap();
    assert!(json(Some(&format!("Bearer {}", timeless)), "secret").is_err());
    claims.insert("exp", now() + 3600);
    let other = encode(&Header::new(Algorithm::HS512), &claims, &key).unwrap();
    assert!(json(Some(&format!("Bearer {}", other)), "secret").is_err());
}

#[test]
fn tokens_without_the_claims_of_the_service_are_refused() {
    let claims = || Err("JSON error: missing field `sub`".to_string());
    let header = format!("Bearer {}", token("secret", now() + 3600));
    let bytes = Some(header.as_bytes());
    assert_eq!(
        JsonWithAuthExtractor::<u8>::authorize(bytes, "/users", "secret", claims()),
        Err(Rejection { status: 500, error: Error::internal(claims().unwrap_err()) })
    );
    assert_eq!(
        PathWithAuthExtractor::<u8>::authorize(bytes, "/users", "secret", claims()),
        Err(Rejection {
            status: 401,
            error: Error::unauthorized(claims().unwrap_err(), "/users".to_string()),
        })
    );
    // without a token there are no claims to complain of
    assert_eq!(
        JsonWithAuthExtractor::<u8>::authorize(None, "/users", "secret", claims()),
        Err(no_token())
    );
}

#[test]
fn admission_follows_the_check_of_the_token() {
    let shown = AuthHeader::Token("a.b.c".to_string());
    assert_eq!(JsonWithAuthExtractor::<u8>::let_in(&shown, "/p", Ok(())), Ok(()));
    assert_eq!(PathWithAuthExtractor::<u8>::let_in(&shown, "/p", Ok(())), Ok(()));
    let complaint = || Err("bad".to_string());
    assert_eq!(
        JsonWithAuthExtractor::<u8>::let_in(&shown, "/p", complaint()),
        Err(Rejection { status: 500, error: Error::internal("bad".to_string()) })
    );
    assert_eq!(
        PathWithAuthExtractor::<u8>::let_in(&shown, "/p", complaint()),
        Err(Rejection {
            status: 401,
            error: Error::unauthorized("bad".to_string(), "/p".to_string()),
        })
    );
    let missing = AuthHeader::Missing;
    let refusal = Rejection {
        status: 401,
        error: Error::unauthorized_with_details("/p".to_string()),
    };
    assert_eq!(JsonWithAuthExtractor::<u8>::let_in(&missing, "/p", Ok(())), Err(refusal));
}

#[test]
fn bodies_are_handed_on_or_refused() {
    assert_eq!(JsonWithAuthExtractor::from_body(Ok(7)), Ok(JsonWithAuthExtractor(7)));
    let rejection = BodyRejection { status: 422, text: "missing field".to_string() };
    assert_eq!(
        JsonWithAuthExtractor::<u8>::from_body(Err(rejection)),
        Err(Rejection { status: 422, error: Error::body_parsing("missing field".to_string()) })
    );
}

#[test]
fn path_parameters_are_handed_on_or_refused() {
    assert_eq!(PathWithAuthExtractor::from_params(Ok(7)), Ok(PathWithAuthExtractor(7)));
    let refused = |rejection| PathWithAuthExtractor::<u8>::from_params(Err(rejection)).unwrap_err();
    assert_eq!(
        refused(PathRejection::FailedToDeserialize("bad number".to_string())),
        Rejection { status: 400, error: Error::path_parsing("bad number".to_string()) }
    );
    assert_eq!(
        refused(PathRejection::MissingParams("no parameters".to_string())),
        Rejection { status: 500, error: Error::path_parsing("no parameters".to_string()) }
    );
    assert_eq!(
        refused(PathRejection::Other("odd".to_string())),
        Rejection {
            status: 500,
            error: Error::internal_with_details("Unhandled path rejection: odd".to_string()),
        }
    );
}
