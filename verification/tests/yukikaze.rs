use kosmos::utils::Package;
use kosmos::yukikaze::request::post;
use kosmos::yukikaze::{Ask, Request};

fn body<T: Package>(value: &T) -> Vec<u8> {
    let mut out = Vec::new();
    value.write(&mut out);
    out
}

#[test]
fn ask_holds_its_text() {
    let ask = Ask::new("list".to_owned());
    assert_eq!(ask.0, "list");
    assert_eq!(String::from(ask.clone()), "list");
    let text: String = ask.into();
    assert_eq!(text, "list");
}

#[test]
fn post_builds_a_post() {
    match Request::post("m".to_owned(), "n".to_owned()) {
        Request::Post { msg, node } => {
            assert_eq!(msg, "m");
            assert_eq!(node, "n");
        }
    }
    match post("hello", String::from("aoi")) {
        Request::Post { msg, node } => {
            assert_eq!(msg, "hello");
            assert_eq!(node, "aoi");
        }
    }
}

#[test]
fn a_post_reads_as_message_rule_and_signature() {
    let text = Request::post("test".to_owned(), "sora".to_owned()).into_string();
    assert_eq!(text, "test\n\n------\nsora - 雪風Dタイプ");
}

#[test]
fn encodings_match_bincode() {
    let ask = Ask::new("add a/b".to_owned());
    assert_eq!(body(&ask), bincode::serialize("add a/b").unwrap());
    let post = Request::post("msg".to_owned(), "青い".to_owned());
    assert_eq!(body(&post), bincode::serialize(&(0u32, "msg", "青い")).unwrap());
}

#[test]
fn encodings_decode() {
    let ask = Ask::new("x".to_owned());
    let (back, n) = Ask::read(&body(&ask)).unwrap();
    assert_eq!(back.0, "x");
    assert_eq!(n, 9);
    let post = Request::post("m".to_owned(), "n".to_owned());
    let mut bytes = body(&post);
    bytes.push(1);
    match Request::read(&bytes) {
        Some((Request::Post { msg, node }, n)) => {
            assert_eq!(msg, "m");
            assert_eq!(node, "n");
            assert_eq!(n, bytes.len() - 1);
        }
        None => panic!("a post did not decode"),
    }
    assert!(Request::read(&[1, 0, 0, 0]).is_none());
    assert!(Request::read(&body(&post)[..12]).is_none());
}
