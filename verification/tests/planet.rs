use kosmos::planet::{
    make_suffix, push_decimal, AirportKind, GetResponse, Planet, RegistResponse, Request,
};
use kosmos::utils::Package;

fn body<T: Package>(value: &T) -> Vec<u8> {
    let mut out = Vec::new();
    value.write(&mut out);
    out
}

#[test]
fn a_name_without_a_slash_gets_a_suffix() {
    let mut planet = Planet::new("foo".to_owned(), AirportKind::UnixSocket);
    planet.update_name().unwrap();
    let name = planet.name();
    assert!(name.starts_with("foo/"));
    assert!(name.len() > "foo/".len());
    assert!(planet.is_unix_socket());
    let suffix = base64::decode(&name["foo/".len()..]).unwrap();
    let suffix = String::from_utf8(suffix).unwrap();
    let mut parts = suffix.split('-');
    let secs = parts.next().unwrap().parse::<u64>().unwrap();
    assert!(secs > 1_600_000_000);
    assert!(parts.next().unwrap().parse::<u32>().is_ok());
    assert!(parts.next().is_none());
}

#[test]
fn a_name_with_a_slash_stays() {
    let mut planet = Planet::new("foo/bar".to_owned(), AirportKind::UnixSocket);
    planet.update_name().unwrap();
    assert_eq!(planet.name(), "foo/bar");
    planet.update_name_with("again");
    assert_eq!(planet.name(), "foo/bar");
}

#[test]
fn update_name_is_idempotent() {
    let mut planet = Planet::new("twice".to_owned(), AirportKind::DomainName);
    planet.update_name().unwrap();
    let once = planet.name();
    planet.update_name().unwrap();
    assert_eq!(planet.name(), once);
    assert!(!planet.is_unix_socket());
}

#[test]
fn update_name_with_appends_slash_and_suffix() {
    let mut planet = Planet::new("foo".to_owned(), AirportKind::UnixSocket);
    planet.update_name_with("ab");
    assert_eq!(planet.name(), "foo/ab");
}

#[test]
fn suffix_is_base64_of_seconds_hyphen_nonce() {
    assert_eq!(make_suffix(1, 2), "MS0y");
    assert_eq!(make_suffix(1590000000, 4294967295), base64::encode("1590000000-4294967295"));
    assert_eq!(make_suffix(0, 0), base64::encode("0-0"));
}

#[test]
fn decimal_digits_are_most_significant_first() {
    let mut out = vec![b'#'];
    push_decimal(0, &mut out);
    push_decimal(907, &mut out);
    push_decimal(18446744073709551615, &mut out);
    assert_eq!(out, b"#090718446744073709551615".to_vec());
}

#[test]
fn planet_encoding_matches_bincode() {
    let unix = Planet::new("alpha/x".to_owned(), AirportKind::UnixSocket);
    assert_eq!(body(&unix), bincode::serialize(&(0u32, "alpha/x")).unwrap());
    let domain = Planet::new("β".to_owned(), AirportKind::DomainName);
    assert_eq!(body(&domain), bincode::serialize(&(1u32, "β")).unwrap());
}

#[test]
fn request_encoding_matches_bincode() {
    let get = Request::Get("foo".to_owned());
    assert_eq!(body(&get), bincode::serialize(&(0u32, "foo")).unwrap());
    assert_eq!(body(&get), vec![0, 0, 0, 0, 3, 0, 0, 0, 0, 0, 0, 0, b'f', b'o', b'o']);
    let regist = Request::Regist(Planet::new("foo".to_owned(), AirportKind::UnixSocket));
    assert_eq!(body(&regist), bincode::serialize(&(1u32, 0u32, "foo")).unwrap());
    let ping = Request::Ping("foo/ab".to_owned());
    assert_eq!(body(&ping), bincode::serialize(&(2u32, "foo/ab")).unwrap());
}

#[test]
fn response_encoding_matches_bincode() {
    assert_eq!(body(&GetResponse::NotFound), bincode::serialize(&0u32).unwrap());
    assert_eq!(body(&GetResponse::NotAvaliable), bincode::serialize(&1u32).unwrap());
    let found = GetResponse::Get(Planet::new("p/q".to_owned(), AirportKind::UnixSocket));
    assert_eq!(body(&found), bincode::serialize(&(2u32, 0u32, "p/q")).unwrap());
    let success = RegistResponse::Success("p/q".to_owned());
    assert_eq!(body(&success), bincode::serialize(&(0u32, "p/q")).unwrap());
    let fail = RegistResponse::Fail("disk full".to_owned());
    assert_eq!(body(&fail), bincode::serialize(&(1u32, "disk full")).unwrap());
}

#[test]
fn messages_decode_to_what_was_encoded() {
    let regist = Request::Regist(Planet::new("雪風".to_owned(), AirportKind::DomainName));
    let mut bytes = body(&regist);
    let len = bytes.len();
    bytes.extend_from_slice(&[7, 7, 7]);
    assert_eq!(Request::read(&bytes), Some((regist, len)));
    let found = GetResponse::Get(Planet::new("a/b".to_owned(), AirportKind::UnixSocket));
    assert_eq!(GetResponse::read(&body(&found)), Some((found.clone(), body(&found).len())));
    let fail = RegistResponse::Fail("no".to_owned());
    assert_eq!(RegistResponse::read(&body(&fail)), Some((fail.clone(), body(&fail).len())));
}

#[test]
fn malformed_messages_do_not_decode() {
    assert_eq!(Request::read(&[3, 0, 0, 0, 0, 0, 0, 0, 0, 0, 0, 0]), None);
    assert_eq!(Request::read(&[0, 0, 0]), None);
    assert_eq!(Request::read(&[0, 0, 0, 0, 2, 0, 0, 0, 0, 0, 0, 0, b'a']), None);
    assert_eq!(Request::read(&[0, 0, 0, 0, 1, 0, 0, 0, 0, 0, 0, 0, 0xff]), None);
    assert_eq!(Planet::read(&[2, 0, 0, 0, 0, 0, 0, 0, 0, 0, 0, 0]), None);
    assert_eq!(GetResponse::read(&[3, 0, 0, 0]), None);
    assert_eq!(RegistResponse::read(&[2, 0, 0, 0, 0, 0, 0, 0, 0, 0, 0, 0]), None);
    assert_eq!(
        Request::read(&[2, 0, 0, 0, 255, 255, 255, 255, 255, 255, 255, 255, b'a']),
        None
    );
}
