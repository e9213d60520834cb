use kosmos::aoi::parser::{parse_id, translate_uri, LinkError};
use kosmos::aoi::request::{Item, Request, UsageError};

#[test]
fn parse_id_test() -> Result<(), LinkError> {
    let input = "https://www.lightnovel.us/thread-1016638-1-1.html";
    let out = 1016638;
    let id = parse_id(input)?;
    assert_eq!(out, id);
    Ok(())
}

#[test]
fn translate_uri_test() -> Result<(), LinkError> {
    let input = "https://www.lightnovel.us/forum.php?mod=viewthread&tid=1015421&extra=page%3D1%26filter%3Dtypeid%26typeid%3D367";
    let expect_out = "https://www.lightnovel.us/thread-1015421-1-1.html";
    let real_out = translate_uri(input.to_owned())?;
    assert_eq!(real_out, expect_out);
    Ok(())
}

#[test]
fn basic_parse() {
    let input = "aoi keyword add test";
    let input = input.split_whitespace();
    let req = Request::from_iter_safe(input.collect()).unwrap();
    let expect = Request::Keyword(Item::Add {
        name: vec!["test".to_owned()],
    });
    assert_eq!(req, expect);
}

#[test]
fn parse_id_rejects_what_is_no_thread_link() {
    assert_eq!(parse_id("short"), Err(LinkError::TooShort));
    assert_eq!(
        parse_id("https://www.lightnovel.us/thread-abc-1-1.html"),
        Err(LinkError::NotANumber)
    );
    assert_eq!(
        parse_id("https://www.lightnovel.us/thread--1-1.html"),
        Err(LinkError::NotANumber)
    );
    assert_eq!(
        parse_id("https://www.lightnovel.us/thread-4294967296-1-1.html"),
        Err(LinkError::NotANumber)
    );
    assert_eq!(
        parse_id("https://www.lightnovel.us/thread-4294967295-1-1.html"),
        Ok(4294967295)
    );
}

#[test]
fn parse_id_drops_nine_characters_not_nine_bytes() {
    assert_eq!(
        parse_id("https://www.lightnovel.us/thread-77雪風雪風雪風雪風雪"),
        Ok(77)
    );
}

#[test]
fn translate_uri_keeps_a_plain_link() {
    let plain = "https://www.lightnovel.us/thread-1015421-1-1.html".to_owned();
    assert_eq!(translate_uri(plain.clone()), Ok(plain));
}

#[test]
fn translate_uri_needs_both_parameters_in_order() {
    assert_eq!(
        translate_uri("forum.php?tid=12".to_owned()),
        Err(LinkError::CanNotTranslate)
    );
    assert_eq!(
        translate_uri("forum.php?a=1&extra=2".to_owned()),
        Err(LinkError::CanNotTranslate)
    );
    assert_eq!(
        translate_uri("forum.php?a=1&extra=2&tid=3".to_owned()),
        Err(LinkError::CanNotTranslate)
    );
    assert_eq!(
        translate_uri("forum.php?a=1&tid=x3&extra=2".to_owned()),
        Err(LinkError::NotANumber)
    );
    assert_eq!(
        translate_uri("forum.php?a=1&tid=0&extra=2".to_owned()),
        Ok("https://www.lightnovel.us/thread-0-1-1.html".to_owned())
    );
}

#[test]
fn commands_name_a_list_and_an_action() {
    let page = Request::from_iter_safe(vec!["aoi", "page", "remove", "a", "b"]).unwrap();
    assert_eq!(page.namespace(), "page");
    assert_eq!(
        page.inner(),
        Item::Remove {
            name: vec!["a".to_owned(), "b".to_owned()]
        }
    );
    let list = Request::from_iter_safe(vec!["aoi", "keyword", "list"]).unwrap();
    assert_eq!(list.namespace(), "keyword");
    assert_eq!(list.inner(), Item::List);
    assert_eq!(
        Request::from_iter_safe(vec!["aoi", "keyword", "clear"]),
        Ok(Request::Keyword(Item::Clear))
    );
    assert_eq!(
        Request::from_iter_safe(vec!["aoi", "keyword", "add"]),
        Ok(Request::Keyword(Item::Add { name: vec![] }))
    );
}

#[test]
fn words_that_spell_no_command_are_refused() {
    assert_eq!(Request::from_iter_safe(vec!["aoi"]), Err(UsageError::MissingList));
    assert_eq!(Request::from_iter_safe(vec![]), Err(UsageError::MissingList));
    assert_eq!(
        Request::from_iter_safe(vec!["aoi", "novel", "list"]),
        Err(UsageError::UnknownList)
    );
    assert_eq!(
        Request::from_iter_safe(vec!["aoi", "keyword"]),
        Err(UsageError::MissingAction)
    );
    assert_eq!(
        Request::from_iter_safe(vec!["aoi", "keyword", "drop"]),
        Err(UsageError::UnknownAction)
    );
    assert_eq!(
        Request::from_iter_safe(vec!["aoi", "keyword", "add", "--help"]),
        Err(UsageError::UnexpectedOption)
    );
    assert_eq!(
        Request::from_iter_safe(vec!["aoi", "page", "list", "x"]),
        Err(UsageError::UnexpectedArgument)
    );
}
