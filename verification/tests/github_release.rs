use kosmos::github_release::postamt::{handle, post, HandleError};
use kosmos::github_release::target::{
    check_and_update, cmd, format_list, format_targets, list, Target,
};
use kosmos::plugin::store::{Store, StoreError};
use kosmos::utils::{exit_frame, Cursor, FrameError, Package, ReadEx, ReadResult};
use kosmos::yukikaze::{Ask, Request};

fn fresh(name: &str) -> Store {
    let mut store = Store::open(&format!("/tmp/kosmos_test/github_release/{}", name)).unwrap();
    store.clear().unwrap();
    store
}

#[test]
fn test() -> Result<(), StoreError> {
    let mut store = fresh("test");
    let target = Target::from("test/test");
    kosmos::github_release::target::add(&mut store, &target)?;
    let first = check_and_update(&mut store, &target, "0.1.0")?;
    assert!(first);
    let second = check_and_update(&mut store, &target, "0.1.0")?;
    assert!(!second);
    let third = check_and_update(&mut store, &target, "0.2.0")?;
    assert!(third);
    kosmos::github_release::target::remove(&mut store, &target)?;
    Ok(())
}

#[test]
fn a_target_is_a_user_and_a_repository() {
    let target = Target::from("rust-lang/rust");
    assert_eq!(target.get_user(), "rust-lang");
    assert_eq!(target.get_repo(), "rust");
    assert_eq!(target.to_string(), "rust-lang/rust");
    let nested = Target::from("a/b/c");
    assert_eq!(nested.get_user(), "a");
    assert_eq!(nested.get_repo(), "b/c");
    let bare = Target::from("solo");
    assert_eq!(bare.get_user(), "");
    assert_eq!(bare.get_repo(), "solo");
    assert_eq!(bare.to_string(), "/solo");
    assert_eq!(Target::new("u".to_owned(), "r".to_owned()), Target::from("u/r"));
    assert_eq!(Target::from("/r").get_user(), "");
    assert_eq!(Target::from("u/").get_repo(), "");
}

#[test]
fn a_target_is_stored_as_bincode_writes_it() {
    let mut store = fresh("layout");
    let target = Target::from("u/r");
    kosmos::github_release::target::add(&mut store, &target).unwrap();
    let key = bincode::serialize(&("u", "r")).unwrap();
    assert_eq!(store.get(&key), Ok(Some(bincode::serialize(&None::<String>).unwrap())));
    check_and_update(&mut store, &target, "1.0").unwrap();
    assert_eq!(
        store.get(&key),
        Ok(Some(bincode::serialize(&Some("1.0".to_owned())).unwrap()))
    );
    let mut bytes = Vec::new();
    target.write(&mut bytes);
    assert_eq!(bytes, key);
    assert_eq!(Target::read(&bytes), Some((target, bytes.len())));
}

#[test]
fn a_first_version_of_an_unknown_target_is_news() {
    let mut store = fresh("unknown");
    let target = Target::from("x/y");
    assert_eq!(check_and_update(&mut store, &target, "1"), Ok(true));
    assert_eq!(check_and_update(&mut store, &target, "1"), Ok(false));
    assert_eq!(list(&store), Ok(vec![target]));
}

#[test]
fn a_mark_that_cannot_be_read_is_an_error_and_is_replaced() {
    let mut store = fresh("garbage");
    let target = Target::from("x/y");
    let mut key = Vec::new();
    target.write(&mut key);
    store.insert(&key, &[9]).unwrap();
    assert_eq!(check_and_update(&mut store, &target, "1"), Err(StoreError::Malformed));
    assert_eq!(check_and_update(&mut store, &target, "1"), Ok(false));
    store.insert(b"??", &[0]).unwrap();
    assert_eq!(list(&store), Err(StoreError::Malformed));
    assert_eq!(format_list(&store), Err(StoreError::Malformed));
}

#[test]
fn lists_are_formatted_line_by_line() {
    let mut store = fresh("format");
    assert_eq!(format_list(&store), Ok("  None.".to_owned()));
    assert_eq!(format_targets(&vec![]), "  None.");
    kosmos::github_release::target::add(&mut store, &Target::from("b/two")).unwrap();
    kosmos::github_release::target::add(&mut store, &Target::from("a/one")).unwrap();
    assert_eq!(format_list(&store), Ok("  - a/one\n  - b/two\n".to_owned()));
    assert_eq!(
        format_targets(&vec![Target::from("z/z"), Target::from("solo")]),
        "  - z/z\n  - /solo\n"
    );
}

#[test]
fn commands_change_the_watch_list_and_answer() {
    let mut store = fresh("cmd");
    assert_eq!(cmd(&mut store, ""), Ok("No command gived.".to_owned()));
    assert_eq!(cmd(&mut store, "   "), Ok("No command gived.".to_owned()));
    assert_eq!(cmd(&mut store, "drop a/b"), Ok("Illeagl command".to_owned()));
    assert_eq!(cmd(&mut store, "list"), Ok("List target.\n  None.".to_owned()));
    assert_eq!(
        cmd(&mut store, "add  b/two\ta/one"),
        Ok("Add success.\n  - a/one\n  - b/two\n".to_owned())
    );
    assert_eq!(cmd(&mut store, "add"), Ok("Add success.\n  - a/one\n  - b/two\n".to_owned()));
    assert_eq!(
        cmd(&mut store, "remove a/one c/none"),
        Ok("Remove success.\n  - b/two\n".to_owned())
    );
    assert_eq!(cmd(&mut store, "list ignored"), Ok("List target.\n  - b/two\n".to_owned()));
    assert_eq!(cmd(&mut store, "remove b/two"), Ok("Remove success.\n  None.".to_owned()));
}

#[test]
fn a_release_is_announced_by_the_watcher() {
    match post("rust", "1.95.0") {
        Request::Post { msg, node } => {
            assert_eq!(msg, "rust release 1.95.0.");
            assert_eq!(node, "Github_watcher");
        }
    }
}

#[test]
fn the_watcher_answers_a_command_with_a_post() {
    let mut store = fresh("handle");
    let mut session = Ask::new("add u/r".to_owned()).package().unwrap();
    session.extend_from_slice(&exit_frame());
    let mut stream = Cursor::new(session);
    let mut out = Vec::new();
    assert_eq!(handle(&mut stream, &mut store, &mut out), Ok(ReadResult::Continue(())));
    match Cursor::new(out.clone()).expect::<Request>().unwrap() {
        Request::Post { msg, node } => {
            assert_eq!(msg, "Add success.\n  - u/r\n");
            assert_eq!(node, "Github_watcher");
        }
    }
    let written = out.len();
    assert_eq!(handle(&mut stream, &mut store, &mut out), Ok(ReadResult::Exit));
    assert_eq!(out.len(), written);
    assert_eq!(
        handle(&mut Cursor::new(vec![1, 0, 0, 0, 0]), &mut store, &mut out),
        Err(HandleError::Frame(FrameError::Malformed))
    );
    assert_eq!(out.len(), written);
}
