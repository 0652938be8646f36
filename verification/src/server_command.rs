//! The command document that the control plane hands to the relay.

use vstd::prelude::*;

verus! {

/// A mapping from keys to values that remembers the order in which its keys
/// came. No key stands in it twice.
#[derive(Debug, PartialEq, Eq)]
pub struct Settings {
    entries: Vec<(String, String)>,
}

/// A command for the agents that a selector names.
///
/// `on` is the selector. It picks the agents and never travels on the wire:
/// an agent sees `run`, `query` and `set` only.
#[derive(Debug, PartialEq, Eq)]
pub struct ServerCommand {
    pub on: String,
    pub run: Vec<String>,
    pub query: Vec<String>,
    pub set: Settings,
}

/// The mathematical value of a [`ServerCommand`].
pub struct ServerCommandView {
    pub on: Seq<char>,
    pub run: Seq<Seq<char>>,
    pub query: Seq<Seq<char>>,
    pub set: Seq<(Seq<char>, Seq<char>)>,
}

/// The strings of a list, each as its characters.
pub open spec fn strings_view(strings: Seq<String>) -> Seq<Seq<char>> {
    strings.map_values(|s: String| s@)
}

/// The entries of a list, each as the characters of its key and of its value.
pub open spec fn entries_view(entries: Seq<(String, String)>) -> Seq<(Seq<char>, Seq<char>)> {
    entries.map_values(|e: (String, String)| (e.0@, e.1@))
}

/// Whether no key occurs twice among `entries`.
pub open spec fn keys_distinct(entries: Seq<(Seq<char>, Seq<char>)>) -> bool {
    forall|i: int, j: int|
        0 <= i < j < entries.len() ==> (#[trigger] entries[i]).0 != (#[trigger] entries[j]).0
}

impl View for Settings {
    type V = Seq<(Seq<char>, Seq<char>)>;

    /// The entries, in the order in which their keys came.
    closed spec fn view(&self) -> Seq<(Seq<char>, Seq<char>)> {
        entries_view(self.entries@)
    }
}

impl View for ServerCommand {
    type V = ServerCommandView;

    open spec fn view(&self) -> ServerCommandView {
        ServerCommandView {
            on: self.on@,
            run: strings_view(self.run@),
            query: strings_view(self.query@),
            set: self.set@,
        }
    }
}

/// Copies a list of strings.
pub fn clone_strings(strings: &Vec<String>) -> (copy: Vec<String>)
    ensures
        strings_view(copy@) == strings_view(strings@),
{
    let mut copy: Vec<String> = Vec::new();
    let mut i: usize = 0;
    while i < strings.len()
        invariant
            i <= strings.len(),
            copy.len() == i,
            forall|k: int| 0 <= k < i ==> (#[trigger] copy[k])@ == strings[k]@,
        decreases strings.len() - i,
    {
        copy.push(strings[i].clone());
        i += 1;
    }
    assert(strings_view(copy@) =~= strings_view(strings@));
    copy
}

/// Copies a list of entries.
pub fn clone_entries(entries: &Vec<(String, String)>) -> (copy: Vec<(String, String)>)
    ensures
        entries_view(copy@) == entries_view(entries@),
{
    let mut copy: Vec<(String, String)> = Vec::new();
    let mut i: usize = 0;
    while i < entries.len()
        invariant
            i <= entries.len(),
            copy.len() == i,
            forall|k: int|
                0 <= k < i ==> (#[trigger] copy[k]).0@ == entries[k].0@ && copy[k].1@
                    == entries[k].1@,
        decreases entries.len() - i,
    {
        copy.push((entries[i].0.clone(), entries[i].1.clone()));
        i += 1;
    }
    assert(entries_view(copy@) =~= entries_view(entries@));
    copy
}

impl Clone for Settings {
    fn clone(&self) -> (copy: Self)
        ensures
            copy@ == self@,
    {
        proof {
            use_type_invariant(self);
        }
        Settings { entries: clone_entries(&self.entries) }
    }
}

impl Clone for ServerCommand {
    fn clone(&self) -> (copy: Self)
        ensures
            copy@ == self@,
    {
        ServerCommand {
            on: self.on.clone(),
            run: clone_strings(&self.run),
            query: clone_strings(&self.query),
            set: self.set.clone(),
        }
    }
}

/// The first place at which `key` stands among `entries`; their number if it
/// stands nowhere.
pub open spec fn key_place(entries: Seq<(Seq<char>, Seq<char>)>, key: Seq<char>) -> int
    decreases entries.len(),
{
    if entries.len() == 0 {
        0
    } else if entries[0].0 == key {
        0
    } else {
        1 + key_place(entries.skip(1), key)
    }
}

/// The value under `key` among `entries`, if the key stands there.
pub open spec fn value_of(entries: Seq<(Seq<char>, Seq<char>)>, key: Seq<char>) -> Option<
    Seq<char>,
> {
    let place = key_place(entries, key);
    if place < entries.len() {
        Some(entries[place].1)
    } else {
        None
    }
}

/// `entries` with `key` set to `value`: in the place where the key stands,
/// or at the end if it stands nowhere.
pub open spec fn with_entry(
    entries: Seq<(Seq<char>, Seq<char>)>,
    key: Seq<char>,
    value: Seq<char>,
) -> Seq<(Seq<char>, Seq<char>)> {
    let place = key_place(entries, key);
    if place < entries.len() {
        entries.update(place, (key, value))
    } else {
        entries.push((key, value))
    }
}

/// The mapping that comes of setting each of `entries` in turn: of a key that
/// is given more than once the first place and the last value stay.
pub open spec fn collected(entries: Seq<(Seq<char>, Seq<char>)>) -> Seq<(Seq<char>, Seq<char>)>
    decreases entries.len(),
{
    if entries.len() == 0 {
        Seq::empty()
    } else {
        with_entry(collected(entries.drop_last()), entries.last().0, entries.last().1)
    }
}

/// The place of a key is the first place that holds it.
pub proof fn lemma_key_place(entries: Seq<(Seq<char>, Seq<char>)>, key: Seq<char>, place: int)
    requires
        0 <= place <= entries.len(),
        forall|k: int| 0 <= k < place ==> (#[trigger] entries[k]).0 != key,
        place < entries.len() ==> entries[place].0 == key,
    ensures
        key_place(entries, key) == place,
    decreases place,
{
    if place > 0 {
        let rest = entries.skip(1);
        assert forall|k: int| 0 <= k < place - 1 implies (#[trigger] rest[k]).0 != key by {
            assert(rest[k] == entries[k + 1]);
        }
        lemma_key_place(rest, key, place - 1);
    }
}

/// Setting a key keeps the keys apart.
pub proof fn lemma_with_entry_keeps_keys_distinct(
    entries: Seq<(Seq<char>, Seq<char>)>,
    key: Seq<char>,
    value: Seq<char>,
    place: int,
)
    requires
        keys_distinct(entries),
        key_place(entries, key) == place,
        0 <= place <= entries.len(),
        forall|k: int| 0 <= k < place ==> (#[trigger] entries[k]).0 != key,
        place < entries.len() ==> entries[place].0 == key,
    ensures
        keys_distinct(with_entry(entries, key, value)),
{
    let after = with_entry(entries, key, value);
    assert forall|a: int, b: int| 0 <= a < b < after.len() implies (#[trigger] after[a]).0 != (
    #[trigger] after[b]).0 by {
        if place < entries.len() {
            assert(entries[a].0 != entries[b].0);
        } else if b < entries.len() {
            assert(entries[a].0 != entries[b].0);
        } else {
            assert(entries[a].0 != key);
        }
    }
}

impl Settings {
    /// What holds of every mapping: no key stands in it twice.
    #[verifier::type_invariant]
    pub open spec fn wf(&self) -> bool {
        keys_distinct(self@)
    }

    /// The empty mapping.
    pub fn new() -> (settings: Settings)
        ensures
            settings.wf(),
            settings@ == Seq::<(Seq<char>, Seq<char>)>::empty(),
    {
        let settings = Settings { entries: Vec::new() };
        assert(settings@ =~= Seq::empty());
        settings
    }

    /// The mapping that comes of setting each of `entries` in turn.
    pub fn collect(entries: Vec<(String, String)>) -> (settings: Settings)
        ensures
            settings.wf(),
            settings@ == collected(entries_view(entries@)),
    {
        let ghost all = entries_view(entries@);
        let mut settings = Settings::new();
        let mut i: usize = 0;
        assert(all.take(0) =~= Seq::empty());
        while i < entries.len()
            invariant
                i <= entries.len(),
                all == entries_view(entries@),
                settings.wf(),
                settings@ == collected(all.take(i as int)),
            decreases entries.len() - i,
        {
            proof {
                assert(all.take(i + 1).drop_last() =~= all.take(i as int));
                assert(all.take(i + 1).last() == (entries[i as int].0@, entries[i as int].1@));
            }
            settings.insert(entries[i].0.clone(), entries[i].1.clone());
            i += 1;
        }
        assert(all.take(entries.len() as int) =~= all);
        settings
    }

    /// The number of keys.
    pub fn len(&self) -> (n: usize)
        ensures
            n == self@.len(),
    {
        self.entries.len()
    }

    /// The entries, in the order in which their keys came. No key stands
    /// among them twice.
    pub fn entries(&self) -> (entries: &Vec<(String, String)>)
        ensures
            entries_view(entries@) == self@,
            keys_distinct(self@),
    {
        proof {
            use_type_invariant(self);
        }
        &self.entries
    }

    /// The value under `key`, if the mapping holds the key.
    pub fn get(&self, key: &String) -> (value: Option<String>)
        ensures
            match value {
                Some(text) => value_of(self@, key@) == Some(text@),
                None => value_of(self@, key@) is None,
            },
    {
        let ghost all = self@;
        let mut i: usize = 0;
        while i < self.entries.len()
            invariant
                i <= self.entries.len(),
                all == self@,
                forall|k: int| 0 <= k < i ==> (#[trigger] all[k]).0 != key@,
            decreases self.entries.len() - i,
        {
            if self.entries[i].0 == *key {
                proof {
                    lemma_key_place(all, key@, i as int);
                }
                return Some(self.entries[i].1.clone());
            }
            i += 1;
        }
        proof {
            lemma_key_place(all, key@, all.len() as int);
        }
        None
    }

    /// Sets `key` to `value`: a key that is there gets the new value in its
    /// place, a new key goes to the end.
    pub fn insert(&mut self, key: String, value: String)
        ensures
            final(self).wf(),
            final(self)@ == with_entry(old(self)@, key@, value@),
    {
        proof {
            use_type_invariant(&*self);
        }
        let ghost before = self@;
        // The entries are taken out while they change, and put back after.
        let mut entries = Vec::new();
        std::mem::swap(&mut entries, &mut self.entries);
        let mut i: usize = 0;
        while i < entries.len()
            invariant
                i <= entries.len(),
                before == old(self)@,
                before == entries_view(entries@),
                keys_distinct(before),
                forall|k: int| 0 <= k < i ==> (#[trigger] before[k]).0 != key@,
            decreases entries.len() - i,
        {
            if entries[i].0 == key {
                proof {
                    lemma_key_place(before, key@, i as int);
                    lemma_with_entry_keeps_keys_distinct(before, key@, value@, i as int);
                }
                entries[i] = (key, value);
                assert(entries_view(entries@) =~= before.update(i as int, (key@, value@)));
                self.entries = entries;
                return ;
            }
            i += 1;
        }
        proof {
            lemma_key_place(before, key@, before.len() as int);
            lemma_with_entry_keeps_keys_distinct(before, key@, value@, before.len() as int);
        }
        entries.push((key, value));
        assert(entries_view(entries@) =~= before.push((key@, value@)));
        self.entries = entries;
    }
}

impl ServerCommand {
    /// A command for the agents that `on` names, with nothing to run, to
    /// query or to set.
    pub fn new(on: String) -> (command: ServerCommand)
        ensures
            command@ == (ServerCommandView {
                on: on@,
                run: Seq::empty(),
                query: Seq::empty(),
                set: Seq::empty(),
            }),
    {
        let command = ServerCommand {
            on,
            run: Vec::new(),
            query: Vec::new(),
            set: Settings::new(),
        };
        assert(command@.run =~= Seq::empty());
        assert(command@.query =~= Seq::empty());
        command
    }

    /// Sets `key` to `value` in `set`.
    pub fn insert(&mut self, key: String, value: String)
        ensures
            final(self)@ == (ServerCommandView {
                set: with_entry(old(self)@.set, key@, value@),
                ..old(self)@
            }),
    {
        self.set.insert(key, value);
    }
}

} // verus!
