//! The commands that the watcher takes, and the words that spell them.

use crate::words::texts;
use vstd::prelude::*;
use vstd::string::StrSliceExecFns;

verus! {

/// What to do with a list.
#[derive(Clone, Debug, PartialEq)]
pub enum Item {
    Add { name: Vec<String> },
    Remove { name: Vec<String> },
    List,
    Clear,
}

/// A command: the list it is about, and what to do with it.
#[derive(Clone, Debug, PartialEq)]
pub enum Request {
    Keyword(Item),
    Page(Item),
}

/// What an `Item` holds.
pub ghost enum ItemView {
    Add { name: Seq<Seq<char>> },
    Remove { name: Seq<Seq<char>> },
    List,
    Clear,
}

/// What a `Request` holds.
pub ghost enum RequestView {
    Keyword(ItemView),
    Page(ItemView),
}

/// The texts of a vector of string slices.
pub open spec fn slice_texts(words: Seq<&str>) -> Seq<Seq<char>> {
    words.map_values(|w: &str| w@)
}

impl View for Item {
    type V = ItemView;

    open spec fn view(&self) -> ItemView {
        match self {
            Item::Add { name } => ItemView::Add { name: texts(name@) },
            Item::Remove { name } => ItemView::Remove { name: texts(name@) },
            Item::List => ItemView::List,
            Item::Clear => ItemView::Clear,
        }
    }
}

impl View for Request {
    type V = RequestView;

    open spec fn view(&self) -> RequestView {
        match self {
            Request::Keyword(item) => RequestView::Keyword(item@),
            Request::Page(item) => RequestView::Page(item@),
        }
    }
}

/// Why words spell no command.
#[derive(Clone, Copy, Debug, PartialEq, Eq, Structural)]
pub enum UsageError {
    /// No word names a list.
    MissingList,
    /// The word at the place of the list names none.
    UnknownList,
    /// No word says what to do.
    MissingAction,
    /// The word at the place of the action names none.
    UnknownAction,
    /// A word starts with `-`: the commands take no options.
    UnexpectedOption,
    /// A word follows an action that takes none.
    UnexpectedArgument,
}

/// A word that starts with `-`.
pub open spec fn is_option(word: Seq<char>) -> bool {
    word.len() > 0 && word[0] == '-'
}

/// Some word of `words` is an option.
pub open spec fn has_option(words: Seq<Seq<char>>) -> bool {
    exists|i: int| 0 <= i < words.len() && is_option(#[trigger] words[i])
}

/// What to do, as the words after the list spell it: the action, then
/// the names where the action takes names.
pub open spec fn spelled_item(words: Seq<Seq<char>>) -> Result<ItemView, UsageError> {
    if words.len() == 0 {
        Err(UsageError::MissingAction)
    } else if words[0] == "add"@ || words[0] == "remove"@ {
        if has_option(words.skip(1)) {
            Err(UsageError::UnexpectedOption)
        } else if words[0] == "add"@ {
            Ok(ItemView::Add { name: words.skip(1) })
        } else {
            Ok(ItemView::Remove { name: words.skip(1) })
        }
    } else if words[0] == "list"@ || words[0] == "clear"@ {
        if words.len() > 1 {
            Err(UsageError::UnexpectedArgument)
        } else if words[0] == "list"@ {
            Ok(ItemView::List)
        } else {
            Ok(ItemView::Clear)
        }
    } else {
        Err(UsageError::UnknownAction)
    }
}

/// The command that the words spell. The first word names the program
/// and is passed over; the second names the list, and the rest say what
/// to do with it.
pub open spec fn spelled(words: Seq<Seq<char>>) -> Result<RequestView, UsageError> {
    if words.len() < 2 {
        Err(UsageError::MissingList)
    } else if words[1] == "keyword"@ {
        match spelled_item(words.skip(2)) {
            Ok(item) => Ok(RequestView::Keyword(item)),
            Err(e) => Err(e),
        }
    } else if words[1] == "page"@ {
        match spelled_item(words.skip(2)) {
            Ok(item) => Ok(RequestView::Page(item)),
            Err(e) => Err(e),
        }
    } else {
        Err(UsageError::UnknownList)
    }
}

/// Whether two words are the same text.
fn same(a: &str, b: &str) -> (r: bool)
    ensures
        r == (a@ == b@),
{
    a.to_owned() == b.to_owned()
}

/// Whether a word starts with `-`.
fn starts_option(word: &str) -> (r: bool)
    ensures
        r == is_option(word@),
{
    word.unicode_len() > 0 && word.get_char(0) == '-'
}

/// The names after the first `from` words, unless one of them is an option.
fn names_from(args: &Vec<&str>, from: usize) -> (r: Option<Vec<String>>)
    requires
        from <= args@.len(),
    ensures
        match r {
            Some(names) => !has_option(slice_texts(args@).skip(from as int)) && texts(names@)
                == slice_texts(args@).skip(from as int),
            None => has_option(slice_texts(args@).skip(from as int)),
        },
{
    let ghost rest = slice_texts(args@).skip(from as int);
    let mut names: Vec<String> = Vec::new();
    let mut i: usize = from;
    while i < args.len()
        invariant
            from <= i <= args@.len(),
            rest == slice_texts(args@).skip(from as int),
            names@.len() == i - from,
            forall|k: int| 0 <= k < i - from ==> !is_option(#[trigger] rest[k]),
            forall|k: int| 0 <= k < i - from ==> (#[trigger] names@[k])@ == rest[k],
        decreases args@.len() - i,
    {
        if starts_option(args[i]) {
            assert(is_option(rest[i - from]));
            return None;
        }
        names.push(args[i].to_owned());
        i += 1;
    }
    assert(texts(names@) =~= rest);
    Some(names)
}

impl Item {
    /// What to do, as the words of `args` after the first `from` spell it.
    fn from_words(args: &Vec<&str>, from: usize) -> (r: Result<Item, UsageError>)
        requires
            from <= args@.len(),
        ensures
            match spelled_item(slice_texts(args@).skip(from as int)) {
                Ok(item) => r is Ok && r->Ok_0@ == item,
                Err(e) => r == Err::<Item, UsageError>(e),
            },
    {
        let ghost words = slice_texts(args@).skip(from as int);
        if from == args.len() {
            return Err(UsageError::MissingAction);
        }
        let action = args[from];
        assert(words[0] == action@);
        assert(words.skip(1) =~= slice_texts(args@).skip(from + 1));
        let adds = same(action, "add");
        if adds || same(action, "remove") {
            match names_from(args, from + 1) {
                Some(name) => if adds {
                    Ok(Item::Add { name })
                } else {
                    Ok(Item::Remove { name })
                },
                None => Err(UsageError::UnexpectedOption),
            }
        } else {
            let lists = same(action, "list");
            if lists || same(action, "clear") {
                if args.len() - from > 1 {
                    Err(UsageError::UnexpectedArgument)
                } else if lists {
                    Ok(Item::List)
                } else {
                    Ok(Item::Clear)
                }
            } else {
                Err(UsageError::UnknownAction)
            }
        }
    }
}

impl Request {
    /// The command that the words spell.
    pub fn from_iter_safe(args: Vec<&str>) -> (r: Result<Request, UsageError>)
        ensures
            match spelled(slice_texts(args@)) {
                Ok(request) => r is Ok && r->Ok_0@ == request,
                Err(e) => r == Err::<Request, UsageError>(e),
            },
    {
        if args.len() < 2 {
            return Err(UsageError::MissingList);
        }
        let list = args[1];
        assert(slice_texts(args@)[1] == list@);
        if same(list, "keyword") {
            match Item::from_words(&args, 2) {
                Ok(item) => Ok(Request::Keyword(item)),
                Err(e) => Err(e),
            }
        } else if same(list, "page") {
            match Item::from_words(&args, 2) {
                Ok(item) => Ok(Request::Page(item)),
                Err(e) => Err(e),
            }
        } else {
            Err(UsageError::UnknownList)
        }
    }

    /// The name of the list that the command is about.
    pub fn namespace(&self) -> (name: &'static str)
        ensures
            name@ == match *self {
                Request::Keyword(_) => "keyword"@,
                Request::Page(_) => "page"@,
            },
    {
        match self {
            Request::Keyword(_) => "keyword",
            Request::Page(_) => "page",
        }
    }

    /// What to do with the list.
    pub fn inner(self) -> (item: Item)
        ensures
            item == match self {
                Request::Keyword(item) => item,
                Request::Page(item) => item,
            },
    {
        match self {
            Request::Keyword(item) => item,
            Request::Page(item) => item,
        }
    }
}

} // verus!
