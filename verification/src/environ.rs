//! The WSGI environment: what a Python `dict` of CGI variables holds.
use crate::input::BytesIo;
use crate::text::text_eq;
use vstd::prelude::*;

verus! {

use crate::input::overwritten;

/// A value of a WSGI environment.
pub enum EnvironValue {
    Text(String),
    Number(u16),
    Pair(u8, u8),
    Flag(bool),
    /// The error stream of the interpreter.
    ErrorStream,
    Input(BytesIo),
}

/// What a value of a WSGI environment is.
pub enum Item {
    Text(Seq<char>),
    Number(u16),
    Pair(u8, u8),
    Flag(bool),
    ErrorStream,
    Input(Seq<u8>, int),
}

impl View for EnvironValue {
    type V = Item;

    open spec fn view(&self) -> Item {
        match self {
            EnvironValue::Text(text) => Item::Text(text@),
            EnvironValue::Number(n) => Item::Number(*n),
            EnvironValue::Pair(a, b) => Item::Pair(*a, *b),
            EnvironValue::Flag(b) => Item::Flag(*b),
            EnvironValue::ErrorStream => Item::ErrorStream,
            EnvironValue::Input(input) => Item::Input(input@.0, input@.1),
        }
    }
}

/// The keys of an environment in the order of their first insertion.
pub open spec fn keys(environ: Seq<(Seq<char>, Item)>) -> Seq<Seq<char>> {
    environ.map_values(|e: (Seq<char>, Item)| e.0)
}

/// An environment with `key` set to `value`: a key that is there keeps its place, a
/// new key comes last.
pub open spec fn env_set(environ: Seq<(Seq<char>, Item)>, key: Seq<char>, value: Item) -> Seq<
    (Seq<char>, Item),
> {
    match keys(environ).index_of_first(key) {
        Some(i) => environ.update(i, (key, value)),
        None => environ.push((key, value)),
    }
}

/// The value of `key`.
pub open spec fn env_get(environ: Seq<(Seq<char>, Item)>, key: Seq<char>) -> Option<Item> {
    match keys(environ).index_of_first(key) {
        Some(i) => Some(environ[i].1),
        None => None,
    }
}

/// The input of an environment: its content and position.
pub open spec fn input_of(environ: Seq<(Seq<char>, Item)>) -> Option<(Seq<u8>, int)> {
    match env_get(environ, "wsgi.input"@) {
        Some(Item::Input(data, position)) => Some((data, position)),
        _ => None,
    }
}

/// An environment after a write to its input.
pub open spec fn with_written(environ: Seq<(Seq<char>, Item)>, bytes: Seq<u8>) -> Seq<
    (Seq<char>, Item),
> {
    let (data, position) = input_of(environ)->Some_0;
    env_set(
        environ,
        "wsgi.input"@,
        Item::Input(overwritten(data, position, bytes), position + bytes.len()),
    )
}

/// An environment whose input is at its start.
pub open spec fn with_rewound(environ: Seq<(Seq<char>, Item)>) -> Seq<(Seq<char>, Item)> {
    env_set(environ, "wsgi.input"@, Item::Input((input_of(environ)->Some_0).0, 0))
}

/// A WSGI environment.
pub struct Environ {
    entries: Vec<(String, EnvironValue)>,
}

impl View for Environ {
    type V = Seq<(Seq<char>, Item)>;

    closed spec fn view(&self) -> Seq<(Seq<char>, Item)> {
        self.entries@.map_values(|e: (String, EnvironValue)| (e.0@, e.1@))
    }
}

impl Environ {
    /// An environment without variables.
    pub fn new() -> (environ: Self)
        ensures
            environ@ == Seq::<(Seq<char>, Item)>::empty(),
    {
        let environ = Environ { entries: Vec::new() };
        assert(environ@ =~= Seq::<(Seq<char>, Item)>::empty());
        environ
    }

    /// The place of a key, if it is there.
    fn position(&self, key: &str) -> (position: Option<usize>)
        ensures
            match position {
                Some(i) => i < self.entries@.len() && keys(self@).index_of_first(key@) == Some(
                    i as int,
                ),
                None => keys(self@).index_of_first(key@) is None,
            },
    {
        let mut i: usize = 0;
        proof {
            keys(self@).index_of_first_ensures(key@);
        }
        while i < self.entries.len()
            invariant
                i <= self.entries@.len(),
                self@.len() == self.entries@.len(),
                forall|j: int| 0 <= j < i ==> keys(self@)[j] != key@,
            decreases self.entries@.len() - i,
        {
            assert(keys(self@)[i as int] == self.entries@[i as int].0@);
            if text_eq(self.entries[i].0.as_str(), key) {
                proof {
                    keys(self@).index_of_first_ensures(key@);
                }
                return Some(i);
            }
            i += 1;
        }
        None
    }

    /// Sets a variable.
    pub fn set_item(&mut self, key: &str, value: EnvironValue)
        ensures
            final(self)@ == env_set(old(self)@, key@, value@),
    {
        let ghost before = self@;
        match self.position(key) {
            Some(i) => {
                self.entries.set(i, (key.to_owned(), value));
                assert(self@ =~= before.update(i as int, (key@, value@)));
            },
            None => {
                self.entries.push((key.to_owned(), value));
                assert(self@ =~= before.push((key@, value@)));
            },
        }
    }

    /// Sets a variable to a text.
    pub fn set_text(&mut self, key: &str, value: &str)
        ensures
            final(self)@ == env_set(old(self)@, key@, Item::Text(value@)),
    {
        self.set_item(key, EnvironValue::Text(value.to_owned()));
    }

    /// The value of a variable.
    pub fn get_item(&self, key: &str) -> (value: Option<&EnvironValue>)
        ensures
            match value {
                Some(v) => env_get(self@, key@) == Some(v@),
                None => env_get(self@, key@) is None,
            },
    {
        match self.position(key) {
            Some(i) => Some(&self.entries[i].1),
            None => None,
        }
    }

    /// Where the input of the environment is, if it has one.
    pub fn input_position(&self) -> (position: Option<usize>)
        ensures
            match position {
                Some(n) => input_of(self@) is Some && n == (input_of(self@)->Some_0).1,
                None => input_of(self@) is None,
            },
    {
        match self.get_item("wsgi.input") {
            Some(EnvironValue::Input(input)) => Some(input.tell()),
            _ => None,
        }
    }

    /// Writes to the input of the environment.
    pub fn write_input(&mut self, bytes: &[u8])
        requires
            input_of(old(self)@) is Some,
            (input_of(old(self)@)->Some_0).1 + bytes@.len() <= usize::MAX,
        ensures
            final(self)@ == with_written(old(self)@, bytes@),
    {
        let ghost before = self@;
        if let Some(i) = self.position("wsgi.input") {
            proof {
                keys(before).index_of_first_ensures("wsgi.input"@);
                assert(keys(before)[i as int] == before[i as int].0);
            }
            if let EnvironValue::Input(input) = &mut self.entries[i].1 {
                input.write(bytes);
            }
            assert(self@ =~= with_written(before, bytes@));
        }
    }

    /// Moves the input of the environment to its start.
    pub fn rewind_input(&mut self)
        requires
            input_of(old(self)@) is Some,
        ensures
            final(self)@ == with_rewound(old(self)@),
    {
        let ghost before = self@;
        if let Some(i) = self.position("wsgi.input") {
            proof {
                keys(before).index_of_first_ensures("wsgi.input"@);
                assert(keys(before)[i as int] == before[i as int].0);
            }
            if let EnvironValue::Input(input) = &mut self.entries[i].1 {
                input.rewind();
            }
            assert(self@ =~= with_rewound(before));
        }
    }

    /// All variables in the order of their first insertion.
    pub fn entries(&self) -> (entries: &Vec<(String, EnvironValue)>)
        ensures
            entries@.len() == self@.len(),
            forall|i: int|
                0 <= i < entries@.len() ==> (#[trigger] entries@[i]).0@ == self@[i].0
                    && entries@[i].1@ == self@[i].1,
    {
        &self.entries
    }
}

/// After a variable is set, reading it gives the new value, and reading any other
/// variable gives what it gave before.
pub broadcast proof fn set_then_get(
    environ: Seq<(Seq<char>, Item)>,
    key: Seq<char>,
    value: Item,
    other: Seq<char>,
)
    ensures
        #[trigger] env_get(env_set(environ, key, value), other) == (if other == key {
            Some(value)
        } else {
            env_get(environ, other)
        }),
{
    let after = env_set(environ, key, value);
    keys(environ).index_of_first_ensures(key);
    keys(environ).index_of_first_ensures(other);
    keys(after).index_of_first_ensures(other);
    match keys(environ).index_of_first(key) {
        Some(i) => {
            assert(keys(after) =~= keys(environ));
        },
        None => {
            assert(keys(after) =~= keys(environ).push(key));
            assert(keys(after)[environ.len() as int] == key);
            if other != key {
                match keys(environ).index_of_first(other) {
                    Some(j) => {
                        assert(keys(after)[j] == other);
                    },
                    None => {
                        assert(!keys(after).contains(other)) by {
                            if keys(after).contains(other) {
                                let j = choose|j: int|
                                    0 <= j < keys(after).len() && keys(after)[j] == other;
                                assert(keys(environ)[j] == other);
                            }
                        }
                    },
                }
            }
        },
    }
}

/// No variable occurs twice, however often it is set.
pub proof fn set_keeps_keys_distinct(
    environ: Seq<(Seq<char>, Item)>,
    key: Seq<char>,
    value: Item,
)
    requires
        keys(environ).no_duplicates(),
    ensures
        keys(env_set(environ, key, value)).no_duplicates(),
{
    let after = env_set(environ, key, value);
    keys(environ).index_of_first_ensures(key);
    match keys(environ).index_of_first(key) {
        Some(i) => {
            assert(keys(after) =~= keys(environ));
        },
        None => {
            assert(keys(after) =~= keys(environ).push(key));
            assert forall|i: int, j: int|
                0 <= i < keys(after).len() && 0 <= j < keys(after).len() && i != j implies keys(
                after,
            )[i] != keys(after)[j] by {
                if i == environ.len() {
                    assert(keys(environ)[j] != key);
                } else if j == environ.len() {
                    assert(keys(environ)[i] != key);
                }
            }
        },
    }
}

/// A variable that is there keeps its place when it is set again, and a new one comes
/// behind all others.
pub proof fn set_keeps_the_order(environ: Seq<(Seq<char>, Item)>, key: Seq<char>, value: Item)
    ensures
        keys(env_set(environ, key, value)) == (if keys(environ).contains(key) {
            keys(environ)
        } else {
            keys(environ).push(key)
        }),
        env_set(environ, key, value).len() == keys(env_set(environ, key, value)).len(),
{
    keys(environ).index_of_first_ensures(key);
    if keys(environ).contains(key) {
        assert(keys(env_set(environ, key, value)) =~= keys(environ));
    } else {
        assert(keys(env_set(environ, key, value)) =~= keys(environ).push(key));
    }
}

/// A write to the input appends to what is there and moves behind it, rewinding moves to
/// the start and keeps what is there, and neither touches another variable.
pub proof fn input_is_written_and_rewound(
    environ: Seq<(Seq<char>, Item)>,
    data: Seq<u8>,
    bytes: Seq<u8>,
    other: Seq<char>,
)
    requires
        env_get(environ, "wsgi.input"@) == Some(Item::Input(data, data.len() as int)),
        other != "wsgi.input"@,
    ensures
        env_get(with_written(environ, bytes), "wsgi.input"@) == Some(
            Item::Input(data + bytes, (data + bytes).len() as int),
        ),
        env_get(with_rewound(environ), "wsgi.input"@) == Some(Item::Input(data, 0)),
        env_get(with_written(environ, bytes), other) == env_get(environ, other),
        env_get(with_rewound(environ), other) == env_get(environ, other),
{
    broadcast use set_then_get;

    crate::input::write_at_end_appends(data, bytes);
}

}
