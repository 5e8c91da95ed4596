//! The headers of a request or a response.

use vstd::prelude::*;
use vstd::string::*;

verus! {

/// Stands for what `str::to_lowercase` returns: the text with every
/// character replaced by its Unicode lower case.
pub uninterp spec fn lowercase_of(s: Seq<char>) -> Seq<char>;

/// `str::to_lowercase` depends on the text alone; the contract gives its
/// result a name.
#[verifier::external_body]
fn lowercase(s: &str) -> (r: String)
    ensures
        r@ == lowercase_of(s@),
{
    s.to_lowercase()
}

/// One header as contracts see it: its name and its value.
pub type Entry = (Seq<char>, Seq<char>);

/// The map that a list of headers stands for. Where a name occurs twice, the
/// later header counts.
pub open spec fn map_of(entries: Seq<Entry>) -> Map<Seq<char>, Seq<char>>
    decreases entries.len(),
{
    if entries.len() == 0 {
        Map::empty()
    } else {
        map_of(entries.drop_last()).insert(entries.last().0, entries.last().1)
    }
}

/// Whether no name occurs twice in a list of headers.
pub open spec fn distinct_names(entries: Seq<Entry>) -> bool {
    forall|i: int, j: int| 0 <= i < j < entries.len() ==> entries[i].0 != entries[j].0
}

/// The lines that write a list of headers: name, colon, space, value and a
/// line feed for each, in the order of the list.
pub open spec fn header_lines(entries: Seq<Entry>) -> Seq<char>
    decreases entries.len(),
{
    if entries.len() == 0 {
        Seq::empty()
    } else {
        header_lines(entries.drop_last()) + entries.last().0 + ": "@ + entries.last().1 + "\n"@
    }
}

/// The place of the last header named `name`, if there is one.
pub open spec fn last_index(entries: Seq<Entry>, name: Seq<char>) -> Option<int>
    decreases entries.len(),
{
    if entries.len() == 0 {
        None
    } else if entries.last().0 == name {
        Some(entries.len() - 1)
    } else {
        last_index(entries.drop_last(), name)
    }
}

/// The headers after `name` has been set to `value`: the last header of
/// that name gets the new value; where there is none, a new header is added
/// at the end.
pub open spec fn entries_with(entries: Seq<Entry>, name: Seq<char>, value: Seq<char>) -> Seq<Entry> {
    match last_index(entries, name) {
        Some(i) => entries.update(i, (name, value)),
        None => entries.push((name, value)),
    }
}

/// The last header of a name lies in the list, carries the name, and no
/// later header does; with no such header, none carries it.
pub proof fn lemma_last_index(entries: Seq<Entry>, name: Seq<char>)
    ensures
        match last_index(entries, name) {
            Some(i) => 0 <= i < entries.len() && entries[i].0 == name && forall|j: int|
                i < j < entries.len() ==> (#[trigger] entries[j]).0 != name,
            None => forall|j: int| 0 <= j < entries.len() ==> (#[trigger] entries[j]).0 != name,
        },
    decreases entries.len(),
{
    if entries.len() > 0 && entries.last().0 != name {
        let front = entries.drop_last();
        lemma_last_index(front, name);
        match last_index(front, name) {
            Some(i) => {
                assert forall|j: int| i < j < entries.len() implies (#[trigger] entries[j]).0
                    != name by {
                    if j < front.len() {
                        assert(front[j].0 != name);
                    }
                }
            },
            None => {
                assert forall|j: int| 0 <= j < entries.len() implies (#[trigger] entries[j]).0
                    != name by {
                    if j < front.len() {
                        assert(front[j].0 != name);
                    }
                }
            },
        }
    }
}

/// The map gives a name the value of its last header, and has no name
/// without a header.
pub proof fn lemma_map_of_last(entries: Seq<Entry>, name: Seq<char>)
    ensures
        match last_index(entries, name) {
            Some(i) => map_of(entries).contains_key(name) && map_of(entries)[name]
                == entries[i].1,
            None => !map_of(entries).contains_key(name),
        },
    decreases entries.len(),
{
    if entries.len() > 0 && entries.last().0 != name {
        let front = entries.drop_last();
        lemma_map_of_last(front, name);
        lemma_last_index(front, name);
        match last_index(front, name) {
            Some(i) => {
                assert(front[i] == entries[i]);
            },
            None => {},
        }
    }
}

/// Setting a header is an insertion into the map of the headers.
pub proof fn lemma_entries_with(entries: Seq<Entry>, name: Seq<char>, value: Seq<char>)
    ensures
        map_of(entries_with(entries, name, value)) == map_of(entries).insert(name, value),
    decreases entries.len(),
{
    match last_index(entries, name) {
        Some(i) => {
            lemma_last_index(entries, name);
            let front = entries.drop_last();
            let after = entries.update(i, (name, value));
            if i == entries.len() - 1 {
                assert(after.drop_last() == front);
                assert(map_of(after) =~= map_of(entries).insert(name, value));
            } else {
                lemma_entries_with(front, name, value);
                assert(after.drop_last() == front.update(i, (name, value)));
                assert(after.last() == entries.last());
                assert(map_of(after) =~= map_of(entries).insert(name, value));
            }
        },
        None => {
            assert(entries.push((name, value)).drop_last() == entries);
        },
    }
}

/// Setting a header in a list without repeated names repeats no name.
pub proof fn lemma_entries_with_distinct(entries: Seq<Entry>, name: Seq<char>, value: Seq<char>)
    requires
        distinct_names(entries),
    ensures
        distinct_names(entries_with(entries, name, value)),
{
    lemma_last_index(entries, name);
    let after = entries_with(entries, name, value);
    assert forall|i: int, j: int| 0 <= i < j < after.len() implies after[i].0 != after[j].0 by {
        match last_index(entries, name) {
            Some(k) => {
                assert(after[i].0 == entries[i].0);
                assert(after[j].0 == entries[j].0);
            },
            None => {
                if j < entries.len() {
                    assert(after[i].0 == entries[i].0);
                    assert(after[j].0 == entries[j].0);
                } else {
                    assert(entries[i].0 != name);
                }
            },
        }
    }
}

/// HTTP headers: values by name, in the order in which the names first came.
/// Names are set in lower case.
#[derive(Clone, Debug)]
pub struct Headers {
    data: Vec<(String, String)>,
}

impl View for Headers {
    type V = Seq<Entry>;

    closed spec fn view(&self) -> Seq<Entry> {
        Seq::new(self.data@.len(), |i: int| (self.data@[i].0@, self.data@[i].1@))
    }
}

impl Headers {
    pub const ACCEPT: &'static str = "accept";

    pub const CONTENT_LENGTH: &'static str = "content-length";

    pub const CONTENT_TYPE: &'static str = "content-type";

    pub const DATE: &'static str = "date";

    pub const HOST: &'static str = "host";

    pub const SERVER: &'static str = "server";

    pub const USER_AGENT: &'static str = "user-agent";

    /// The value of each name.
    pub open spec fn map(&self) -> Map<Seq<char>, Seq<char>> {
        map_of(self@)
    }

    /// No headers.
    pub fn new() -> (h: Headers)
        ensures
            h@ == Seq::<Entry>::empty(),
    {
        let h = Headers { data: Vec::new() };
        assert(h@ =~= Seq::<Entry>::empty());
        h
    }

    /// Where the last header named `name` stands.
    fn position(&self, name: &str) -> (found: Option<usize>)
        ensures
            match found {
                Some(i) => last_index(self@, name@) == Some(i as int) && i < self.data@.len(),
                None => last_index(self@, name@) is None,
            },
    {
        let mut i: usize = self.data.len();
        assert(self@.take(i as int) == self@);
        while i > 0
            invariant
                i <= self.data.len(),
                last_index(self@, name@) == last_index(self@.take(i as int), name@),
            decreases i,
        {
            assert(self@.take(i as int).drop_last() == self@.take(i - 1));
            if crate::text::same_text(self.data[i - 1].0.as_str(), name) {
                return Some(i - 1);
            }
            i -= 1;
        }
        None
    }

    /// Whether there is a header with exactly the name `a`.
    pub fn contains_key(&self, a: &str) -> (b: bool)
        ensures
            b == self.map().contains_key(a@),
    {
        proof {
            lemma_map_of_last(self@, a@);
        }
        self.position(a).is_some()
    }

    /// Sets the header with exactly the name `name` to `value`.
    pub fn set(&mut self, name: String, value: String)
        ensures
            final(self)@ == entries_with(old(self)@, name@, value@),
            final(self).map() == old(self).map().insert(name@, value@),
    {
        proof {
            lemma_entries_with(self@, name@, value@);
        }
        match self.position(name.as_str()) {
            Some(i) => {
                self.data[i] = (name, value);
            },
            None => {
                self.data.push((name, value));
            },
        }
        assert(self@ =~= entries_with(old(self)@, name@, value@));
    }

    /// The value of the header with exactly the name `name`.
    pub fn value_of(&self, name: &str) -> (value: Option<&String>)
        ensures
            match value {
                Some(v) => self.map().contains_key(name@) && v@ == self.map()[name@],
                None => !self.map().contains_key(name@),
            },
    {
        proof {
            lemma_map_of_last(self@, name@);
        }
        match self.position(name) {
            Some(i) => Some(&self.data[i].1),
            None => None,
        }
    }

    /// Sets the header named `a`, in lower case, to `b`.
    pub fn insert(&mut self, a: &str, b: &str)
        ensures
            final(self)@ == entries_with(old(self)@, lowercase_of(a@), b@),
            final(self).map() == old(self).map().insert(lowercase_of(a@), b@),
    {
        self.set(lowercase(a), String::from_str(b));
    }

    /// The value of the header named `a` in lower case.
    pub fn get(&self, a: &str) -> (value: Option<&String>)
        ensures
            match value {
                Some(v) => self.map().contains_key(lowercase_of(a@)) && v@
                    == self.map()[lowercase_of(a@)],
                None => !self.map().contains_key(lowercase_of(a@)),
            },
    {
        let name = lowercase(a);
        self.value_of(name.as_str())
    }

    /// The header lines: name, colon, space, value and a line feed for each
    /// header.
    pub fn to_string(&self) -> (s: String)
        ensures
            s@ == header_lines(self@),
    {
        let mut s = String::new();
        let mut i: usize = 0;
        while i < self.data.len()
            invariant
                i <= self.data.len(),
                s@ == header_lines(self@.take(i as int)),
            decreases self.data.len() - i,
        {
            assert(self@.take(i + 1).drop_last() == self@.take(i as int));
            s.append(self.data[i].0.as_str());
            s.append(": ");
            s.append(self.data[i].1.as_str());
            s.append("\n");
            i += 1;
        }
        assert(self@.take(i as int) == self@);
        s
    }

    /// Whether every header of `self` has the same value in `other`.
    fn included_in(&self, other: &Headers) -> (b: bool)
        ensures
            b == forall|name: Seq<char>| #[trigger]
                self.map().contains_key(name) ==> other.map().contains_key(name)
                    && other.map()[name] == self.map()[name],
    {
        let mut i: usize = 0;
        while i < self.data.len()
            invariant
                i <= self.data.len(),
                forall|j: int|
                    0 <= j < i ==> other.map().contains_key((#[trigger] self@[j]).0)
                        && other.map()[self@[j].0] == self.map()[self@[j].0],
            decreases self.data.len() - i,
        {
            let name = self.data[i].0.as_str();
            proof {
                assert(self@[i as int].0 == name@);
                lemma_map_of_last(self@, name@);
                lemma_map_of_last(other@, name@);
                lemma_last_index(self@, name@);
            }
            let same = match other.position(name) {
                Some(k) => match self.position(name) {
                    Some(m) => crate::text::same_text(
                        other.data[k].1.as_str(),
                        self.data[m].1.as_str(),
                    ),
                    None => false,
                },
                None => false,
            };
            if !same {
                assert(self.map().contains_key(name@));
                return false;
            }
            i += 1;
        }
        assert forall|name: Seq<char>| #[trigger]
            self.map().contains_key(name) implies other.map().contains_key(name)
            && other.map()[name] == self.map()[name] by {
            lemma_map_of_last(self@, name);
            lemma_last_index(self@, name);
            let k = last_index(self@, name)->0;
            assert(self@[k].0 == name);
        }
        true
    }
}

impl PartialEq for Headers {
    fn eq(&self, other: &Headers) -> (same: bool) {
        let same = self.included_in(other) && other.included_in(self);
        proof {
            if same {
                assert(self.map() =~= other.map());
            }
        }
        same
    }
}

impl vstd::std_specs::cmp::PartialEqSpecImpl for Headers {
    open spec fn obeys_eq_spec() -> bool {
        true
    }

    open spec fn eq_spec(&self, other: &Headers) -> bool {
        self.map() == other.map()
    }
}

} // verus!
