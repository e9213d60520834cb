//! The repositories that are watched, each with the last version seen.

use crate::plugin::store::{key_views, lists_keys, Store, StoreError};
use crate::utils::Package;
use crate::wire::{
    lemma_parse_wire_str, lemma_wire_parse_str, parse_str, read_str, str_encodable, wire_str,
    write_str,
};
use crate::words::{parts, split_once, split_whitespace, texts, words_of};
use vstd::prelude::*;
use vstd::slice::slice_subrange;
use vstd::string::StringExecFns;

verus! {

/// A repository: the user that owns it, and its name.
#[derive(Clone, Debug, PartialEq)]
pub struct Target(String, String);

/// What a `Target` holds.
pub ghost struct TargetView {
    pub user: Seq<char>,
    pub repo: Seq<char>,
}

impl View for Target {
    type V = TargetView;

    closed spec fn view(&self) -> TargetView {
        TargetView { user: self.0@, repo: self.1@ }
    }
}

/// The target that `item` names: what stands before its first `/` is the
/// user and what follows it the repository; without a `/` all of it is
/// the repository of no user.
pub open spec fn named(item: Seq<char>) -> TargetView {
    match parts(item, '/') {
        Some((user, repo)) => TargetView { user, repo },
        None => TargetView { user: Seq::empty(), repo: item },
    }
}

/// The text of a target: user, `/`, repository.
pub open spec fn target_text(target: TargetView) -> Seq<char> {
    target.user + seq!['/'] + target.repo
}

impl Target {
    /// The user that owns the repository.
    pub fn get_user(&self) -> (user: &str)
        ensures
            user@ == self@.user,
    {
        self.0.as_str()
    }

    /// The name of the repository.
    pub fn get_repo(&self) -> (repo: &str)
        ensures
            repo@ == self@.repo,
    {
        self.1.as_str()
    }

    /// The repository `repo` of `user`.
    pub fn new(user: String, repo: String) -> (target: Target)
        ensures
            target@ == (TargetView { user: user@, repo: repo@ }),
    {
        Target(user, repo)
    }

    /// The target that `item` names.
    pub fn from(item: &str) -> (target: Target)
        ensures
            target@ == named(item@),
    {
        match split_once(item, '/') {
            Some((user, repo)) => Target(user, repo),
            None => Target(String::new(), item.to_owned()),
        }
    }

    /// The text of the target: user, `/`, repository.
    pub fn to_string(&self) -> (text: String)
        ensures
            text@ == target_text(self@),
    {
        proof {
            reveal_strlit("/");
            assert("/"@ =~= seq!['/']);
        }
        let mut text = self.0.clone();
        text.append("/");
        text.append(self.1.as_str());
        text
    }
}

impl Package for Target {
    open spec fn wire(v: TargetView) -> Seq<u8> {
        wire_str(v.user) + wire_str(v.repo)
    }

    open spec fn parse(bytes: Seq<u8>) -> Option<(TargetView, int)> {
        match parse_str(bytes) {
            Some((user, n1)) => match parse_str(bytes.skip(n1)) {
                Some((repo, n2)) => Some((TargetView { user, repo }, n1 + n2)),
                None => None,
            },
            None => None,
        }
    }

    open spec fn encodable(v: TargetView) -> bool {
        str_encodable(v.user) && str_encodable(v.repo)
    }

    proof fn lemma_parse_wire(v: TargetView, rest: Seq<u8>) {
        let all = Self::wire(v) + rest;
        let after_user = wire_str(v.repo) + rest;
        assert(all =~= wire_str(v.user) + after_user);
        lemma_parse_wire_str(v.user, after_user);
        lemma_parse_wire_str(v.repo, rest);
        assert(all.skip(wire_str(v.user).len() as int) =~= after_user);
    }

    proof fn lemma_wire_parse(bytes: Seq<u8>) {
        if let Some((v, n)) = Self::parse(bytes) {
            lemma_wire_parse_str(bytes);
            let (_, n1) = parse_str(bytes).unwrap();
            lemma_wire_parse_str(bytes.skip(n1));
            assert(bytes.skip(n1).subrange(0, n - n1) =~= bytes.subrange(n1, n));
            assert(bytes.subrange(0, n) =~= bytes.subrange(0, n1) + bytes.subrange(n1, n));
        }
    }

    fn write(&self, out: &mut Vec<u8>) {
        write_str(self.0.as_str(), out);
        write_str(self.1.as_str(), out);
        assert(Self::encodable(self@));
        assert(out@ =~= old(out)@ + Self::wire(self@));
    }

    fn read(bytes: &[u8]) -> (r: Option<(Target, usize)>) {
        let (user, n1) = match read_str(bytes) {
            Some(found) => found,
            None => { return None; },
        };
        let (repo, n2) = match read_str(slice_subrange(bytes, n1, bytes.len())) {
            Some(found) => found,
            None => { return None; },
        };
        Some((Target(user, repo), n1 + n2))
    }
}

/// The mark of a target: the last version seen, or none yet.
pub type Update = Option<String>;

/// The encoding of a mark: a zero byte for none, a one byte and the
/// version for a version.
pub open spec fn wire_mark(mark: Option<Seq<char>>) -> Seq<u8> {
    match mark {
        None => seq![0u8],
        Some(version) => seq![1u8] + wire_str(version),
    }
}

/// The mark that `bytes` start with.
pub open spec fn parse_mark(bytes: Seq<u8>) -> Option<Option<Seq<char>>> {
    if bytes.len() == 0 {
        None
    } else if bytes[0] == 0 {
        Some(None)
    } else if bytes[0] == 1 {
        match parse_str(bytes.skip(1)) {
            Some((version, _)) => Some(Some(version)),
            None => None,
        }
    } else {
        None
    }
}

/// Reading back the encoding of a mark gives the mark.
pub proof fn lemma_mark_round_trip(mark: Option<Seq<char>>)
    requires
        mark matches Some(version) ==> str_encodable(version),
    ensures
        parse_mark(wire_mark(mark)) == Some(mark),
{
    match mark {
        None => {},
        Some(version) => {
            lemma_parse_wire_str(version, Seq::empty());
            assert(wire_mark(mark).skip(1) =~= wire_str(version) + Seq::<u8>::empty());
        },
    }
}

/// The encoding of a mark.
fn mark_bytes(mark: Option<&str>) -> (bytes: Vec<u8>)
    ensures
        bytes@ == wire_mark(
            match mark {
                Some(version) => Some(version@),
                None => None,
            },
        ),
        mark matches Some(version) ==> str_encodable(version@),
{
    let mut bytes: Vec<u8> = Vec::new();
    match mark {
        None => {
            bytes.push(0);
        },
        Some(version) => {
            bytes.push(1);
            write_str(version, &mut bytes);
        },
    }
    assert(bytes@ =~= wire_mark(
        match mark {
            Some(version) => Some(version@),
            None => None,
        },
    ));
    bytes
}

/// The mark that `bytes` start with.
fn read_mark(bytes: &[u8]) -> (r: Option<Update>)
    ensures
        match r {
            Some(Some(version)) => parse_mark(bytes@) == Some(Some(version@)),
            Some(None) => parse_mark(bytes@) == Some(None::<Seq<char>>),
            None => parse_mark(bytes@) is None,
        },
{
    if bytes.len() == 0 {
        return None;
    }
    if bytes[0] == 0 {
        Some(None)
    } else if bytes[0] == 1 {
        match read_str(slice_subrange(bytes, 1, bytes.len())) {
            Some((version, _)) => Some(Some(version)),
            None => None,
        }
    } else {
        None
    }
}

/// The key of a target in the watch list.
pub open spec fn target_key(target: TargetView) -> Seq<u8> {
    Target::wire(target)
}

/// The key of a target in the watch list.
fn key_of(target: &Target) -> (key: Vec<u8>)
    ensures
        key@ == target_key(target@),
        Target::encodable(target@),
{
    let mut key: Vec<u8> = Vec::new();
    target.write(&mut key);
    key
}

/// Puts `target` on the watch list, with no version seen.
pub fn add(store: &mut Store, target: &Target) -> (r: Result<(), StoreError>)
    ensures
        match r {
            Ok(()) => final(store).entries() == old(store).entries().insert(
                target_key(target@),
                wire_mark(None),
            ),
            Err(e) => e is Backend,
        },
{
    let key = key_of(target);
    let mark = mark_bytes(None);
    match store.insert(key.as_slice(), mark.as_slice()) {
        Ok(_) => Ok(()),
        Err(e) => Err(e),
    }
}

/// Takes `target` off the watch list.
pub fn remove(store: &mut Store, target: &Target) -> (r: Result<(), StoreError>)
    ensures
        match r {
            Ok(()) => final(store).entries() == old(store).entries().remove(target_key(target@)),
            Err(e) => e is Backend,
        },
{
    let key = key_of(target);
    match store.remove(key.as_slice()) {
        Ok(_) => Ok(()),
        Err(e) => Err(e),
    }
}

/// Whether `new_ver` is news for a target whose stored mark is `old`:
/// it is, unless the mark is that very version.
pub open spec fn is_news(old: Option<Seq<u8>>, new_ver: Seq<char>) -> bool {
    match old {
        Some(bytes) => parse_mark(bytes) != Some(Some(new_ver)),
        None => true,
    }
}

/// Marks `target` with the version `new_ver` and says whether that
/// version is news: it is unless the target was marked with it before.
/// The new mark is stored in either case, also where the old one cannot
/// be read, which is an error.
pub fn check_and_update(store: &mut Store, target: &Target, new_ver: &str) -> (r: Result<
    bool,
    StoreError,
>)
    ensures
        ({
            let key = target_key(target@);
            let before = old(store).entries();
            let after = final(store).entries();
            match r {
                Ok(news) => after == before.insert(key, wire_mark(Some(new_ver@))) && news
                    == is_news(
                    if before.contains_key(key) {
                        Some(before[key])
                    } else {
                        None
                    },
                    new_ver@,
                ) && (before.contains_key(key) ==> parse_mark(before[key]) is Some),
                Err(StoreError::Malformed) => after == before.insert(
                    key,
                    wire_mark(Some(new_ver@)),
                ) && before.contains_key(key) && parse_mark(before[key]) is None,
                Err(StoreError::Backend(_)) => true,
            }
        }),
{
    let key = key_of(target);
    let mark = mark_bytes(Some(new_ver));
    match store.insert(key.as_slice(), mark.as_slice()) {
        Ok(Some(bin_old_ver)) => match read_mark(bin_old_ver.as_slice()) {
            Some(Some(old_ver)) => Ok(!(old_ver == new_ver.to_owned())),
            Some(None) => Ok(true),
            None => Err(StoreError::Malformed),
        },
        Ok(None) => Ok(true),
        Err(e) => Err(e),
    }
}

/// The targets that the keys spell, in the order of the keys, where
/// every key spells one.
pub open spec fn spelled_targets(keys: Seq<Seq<u8>>) -> Option<Seq<TargetView>>
    decreases keys.len(),
{
    if keys.len() == 0 {
        Some(Seq::empty())
    } else {
        match (spelled_targets(keys.drop_last()), Target::parse(keys.last())) {
            (Some(targets), Some((target, _))) => Some(targets.push(target)),
            _ => None,
        }
    }
}

/// The views of a vector of targets.
pub open spec fn target_views(targets: Seq<Target>) -> Seq<TargetView> {
    targets.map_values(|t: Target| t@)
}

/// The watch list: the targets that the keys of `store` spell, in key order.
pub fn list(store: &Store) -> (r: Result<Vec<Target>, StoreError>)
    ensures
        match r {
            Ok(targets) => exists|keys: Seq<Seq<u8>>|
                #![trigger spelled_targets(keys)]
                lists_keys(store.entries(), keys) && spelled_targets(keys) == Some(
                    target_views(targets@),
                ),
            Err(StoreError::Malformed) => exists|keys: Seq<Seq<u8>>|
                #![trigger spelled_targets(keys)]
                lists_keys(store.entries(), keys) && spelled_targets(keys) is None,
            Err(StoreError::Backend(_)) => true,
        },
{
    let keys = match store.keys() {
        Ok(keys) => keys,
        Err(e) => { return Err(e); },
    };
    let ghost all = key_views(keys@);
    let mut res: Vec<Target> = Vec::new();
    let mut i: usize = 0;
    while i < keys.len()
        invariant
            i <= keys@.len(),
            all == key_views(keys@),
            lists_keys(store.entries(), all),
            spelled_targets(all.subrange(0, i as int)) == Some(target_views(res@)),
        decreases keys@.len() - i,
    {
        let ghost shorter = all.subrange(0, i as int);
        let ghost longer = all.subrange(0, i + 1);
        assert(longer.drop_last() =~= shorter);
        assert(longer.last() == keys@[i as int]@);
        match Target::read(keys[i].as_slice()) {
            Some((target, _)) => {
                let ghost before = res@;
                res.push(target);
                assert(target_views(res@) =~= target_views(before).push(target@));
            },
            None => {
                proof {
                    assert(spelled_targets(longer) is None);
                    lemma_spelled_targets_prefix(all, i + 1);
                    assert(lists_keys(store.entries(), all));
                    assert(spelled_targets(all) is None);
                }
                return Err(StoreError::Malformed);
            },
        }
        i += 1;
    }
    assert(all.subrange(0, i as int) =~= all);
    assert(lists_keys(store.entries(), all));
    assert(spelled_targets(all) == Some(target_views(res@)));
    Ok(res)
}

/// Keys of which a beginning spells no targets spell none.
proof fn lemma_spelled_targets_prefix(keys: Seq<Seq<u8>>, n: int)
    requires
        0 <= n <= keys.len(),
        spelled_targets(keys.subrange(0, n)) is None,
    ensures
        spelled_targets(keys) is None,
    decreases keys.len() - n,
{
    if n == keys.len() {
        assert(keys.subrange(0, n) =~= keys);
    } else {
        assert(keys.subrange(0, n + 1).drop_last() =~= keys.subrange(0, n));
        lemma_spelled_targets_prefix(keys, n + 1);
    }
}

/// The lines of a watch list: for each target two spaces, a hyphen, a
/// space, its text and a line break.
pub open spec fn list_lines(targets: Seq<TargetView>) -> Seq<char>
    decreases targets.len(),
{
    if targets.len() == 0 {
        Seq::empty()
    } else {
        list_lines(targets.drop_last()) + "  - "@ + target_text(targets.last()) + "\n"@
    }
}

/// A watch list as text: its lines, or a line that says that it is empty.
pub open spec fn list_text(targets: Seq<TargetView>) -> Seq<char> {
    if targets.len() == 0 {
        "  None."@
    } else {
        list_lines(targets)
    }
}

/// The text of a list of targets.
pub fn format_targets(ts: &Vec<Target>) -> (text: String)
    ensures
        text@ == list_text(target_views(ts@)),
{
    if ts.len() == 0 {
        return "  None.".to_owned();
    }
    let ghost all = target_views(ts@);
    let mut fmt_str = String::new();
    let mut i: usize = 0;
    while i < ts.len()
        invariant
            i <= ts@.len(),
            all == target_views(ts@),
            fmt_str@ == list_lines(all.subrange(0, i as int)),
        decreases ts@.len() - i,
    {
        let ghost shorter = all.subrange(0, i as int);
        let ghost longer = all.subrange(0, i + 1);
        assert(longer.drop_last() =~= shorter);
        assert(longer.last() == ts@[i as int]@);
        fmt_str.append("  - ");
        fmt_str.append(ts[i].to_string().as_str());
        fmt_str.append("\n");
        i += 1;
    }
    assert(all.subrange(0, i as int) =~= all);
    fmt_str
}

/// The watch list of `store` as text.
pub fn format_list(store: &Store) -> (r: Result<String, StoreError>)
    ensures
        match r {
            Ok(text) => exists|keys: Seq<Seq<u8>>|
                #![trigger spelled_targets(keys)]
                lists_keys(store.entries(), keys) && (spelled_targets(keys) matches Some(targets)
                    && text@ == list_text(targets)),
            Err(StoreError::Malformed) => exists|keys: Seq<Seq<u8>>|
                #![trigger spelled_targets(keys)]
                lists_keys(store.entries(), keys) && spelled_targets(keys) is None,
            Err(StoreError::Backend(_)) => true,
        },
{
    match list(store) {
        Ok(ts) => Ok(format_targets(&ts)),
        Err(e) => Err(e),
    }
}

/// The watch list after every target that the words name was put on it,
/// the first word first.
pub open spec fn all_added(entries: Map<Seq<u8>, Seq<u8>>, words: Seq<Seq<char>>) -> Map<
    Seq<u8>,
    Seq<u8>,
>
    decreases words.len(),
{
    if words.len() == 0 {
        entries
    } else {
        all_added(entries, words.drop_last()).insert(target_key(named(words.last())), wire_mark(None))
    }
}

/// The watch list after every target that the words name was taken off it.
pub open spec fn all_removed(entries: Map<Seq<u8>, Seq<u8>>, words: Seq<Seq<char>>) -> Map<
    Seq<u8>,
    Seq<u8>,
>
    decreases words.len(),
{
    if words.len() == 0 {
        entries
    } else {
        all_removed(entries, words.drop_last()).remove(target_key(named(words.last())))
    }
}

/// What a command makes of the watch list: `add` and `remove` change it
/// by the targets that follow, every other command leaves it.
pub open spec fn commanded(entries: Map<Seq<u8>, Seq<u8>>, words: Seq<Seq<char>>) -> Map<
    Seq<u8>,
    Seq<u8>,
> {
    if words.len() > 0 && words[0] == "add"@ {
        all_added(entries, words.skip(1))
    } else if words.len() > 0 && words[0] == "remove"@ {
        all_removed(entries, words.skip(1))
    } else {
        entries
    }
}

/// The line with which the answer to a command starts.
pub open spec fn answer_head(words: Seq<Seq<char>>) -> Seq<char> {
    if words.len() == 0 {
        "No command gived."@
    } else if words[0] == "add"@ {
        "Add success.\n"@
    } else if words[0] == "remove"@ {
        "Remove success.\n"@
    } else if words[0] == "list"@ {
        "List target.\n"@
    } else {
        "Illeagl command"@
    }
}

/// Whether the answer to a command ends with the watch list.
pub open spec fn answer_lists(words: Seq<Seq<char>>) -> bool {
    words.len() > 0 && (words[0] == "add"@ || words[0] == "remove"@ || words[0] == "list"@)
}

/// `resp` is the answer to the command `words` on a watch list that is
/// `after` once the command was carried out.
pub open spec fn answered(after: Map<Seq<u8>, Seq<u8>>, words: Seq<Seq<char>>, resp: Seq<char>) -> bool {
    if answer_lists(words) {
        exists|keys: Seq<Seq<u8>>|
            #![trigger spelled_targets(keys)]
            lists_keys(after, keys) && (spelled_targets(keys) matches Some(targets) && resp
                == answer_head(words) + list_text(targets))
    } else {
        resp == answer_head(words)
    }
}

/// Carries out a command on the watch list and gives the answer. `add`
/// and `remove` take the targets that follow them, `list` takes none;
/// the answer to these three ends with the watch list as it then is.
/// Only these three can fail, and only on the store.
pub fn cmd(store: &mut Store, input: &str) -> (r: Result<String, StoreError>)
    ensures
        match r {
            Ok(resp) => final(store).entries() == commanded(
                old(store).entries(),
                words_of(input@),
            ) && answered(final(store).entries(), words_of(input@), resp@),
            Err(_) => answer_lists(words_of(input@)),
        },
{
    let args = split_whitespace(input);
    let ghost words = words_of(input@);
    if args.len() == 0 {
        return Ok("No command gived.".to_owned());
    }
    assert(words[0] == args@[0]@);
    proof {
        reveal_strlit("add");
        reveal_strlit("remove");
        assert("add"@.len() != "remove"@.len());
    }
    let sub = args[0].clone();
    let adds = sub == "add".to_owned();
    if adds || sub == "remove".to_owned() {
        let ghost rest = words.skip(1);
        let mut i: usize = 1;
        while i < args.len()
            invariant
                1 <= i <= args@.len(),
                words == texts(args@),
                words == words_of(input@),
                rest == words.skip(1),
                words[0] == (if adds {
                    "add"@
                } else {
                    "remove"@
                }),
                "add"@ != "remove"@,
                store.entries() == (if adds {
                    all_added(old(store).entries(), rest.subrange(0, i - 1))
                } else {
                    all_removed(old(store).entries(), rest.subrange(0, i - 1))
                }),
            decreases args@.len() - i,
        {
            let ghost shorter = rest.subrange(0, i - 1);
            let ghost longer = rest.subrange(0, i as int);
            assert(longer.drop_last() =~= shorter);
            assert(longer.last() == args@[i as int]@);
            let t = Target::from(args[i].as_str());
            let done = if adds {
                self::add(store, &t)
            } else {
                self::remove(store, &t)
            };
            match done {
                Ok(()) => {},
                Err(e) => { return Err(e); },
            }
            i += 1;
        }
        assert(rest.subrange(0, i - 1) =~= rest);
        let listing = match format_list(store) {
            Ok(listing) => listing,
            Err(e) => { return Err(e); },
        };
        let mut resp = if adds {
            "Add success.\n".to_owned()
        } else {
            "Remove success.\n".to_owned()
        };
        resp.append(listing.as_str());
        Ok(resp)
    } else if sub == "list".to_owned() {
        let listing = match format_list(store) {
            Ok(listing) => listing,
            Err(e) => { return Err(e); },
        };
        let mut resp = "List target.\n".to_owned();
        resp.append(listing.as_str());
        Ok(resp)
    } else {
        Ok("Illeagl command".to_owned())
    }
}

} // verus!
