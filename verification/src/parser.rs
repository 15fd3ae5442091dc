//! The configuration in memory: for each directory its table of aliases.

use std::collections::BTreeMap;
use vstd::prelude::*;
use crate::assoc::{
    has_key, key_at, lemma_key_found, lemma_put, lemma_put_last, lemma_scanned,
    is_place, lemma_update_sorted, lemma_without, put, scan, sorted_keys, value_of, without,
};
use crate::error::{Error, ErrorText};
use crate::text::text_lt;

verus! {

/// The aliases of one directory: each name with its command, in the order
/// of the names.
#[derive(Debug, PartialEq, Eq)]
pub struct Entry {
    aliases: Vec<(String, String)>,
}

/// The pairs of a vector of pairs of strings, as texts.
pub open spec fn pairs_view(v: Seq<(String, String)>) -> Seq<(Seq<char>, Seq<char>)> {
    Seq::new(v.len(), |i: int| (v[i].0@, v[i].1@))
}

impl View for Entry {
    type V = Seq<(Seq<char>, Seq<char>)>;

    closed spec fn view(&self) -> Seq<(Seq<char>, Seq<char>)> {
        pairs_view(self.aliases@)
    }
}

impl Entry {
    /// The names are in order, so that none occurs twice.
    pub open spec fn wf(&self) -> bool {
        sorted_keys(self@)
    }

    /// A table without aliases.
    pub fn new() -> (entry: Entry)
        ensures
            entry@ == Seq::<(Seq<char>, Seq<char>)>::empty(),
            entry.wf(),
    {
        let entry = Entry { aliases: Vec::new() };
        assert(entry@ =~= Seq::empty());
        entry
    }

    /// The number of aliases.
    pub fn len(&self) -> (n: usize)
        ensures
            n == self@.len(),
    {
        self.aliases.len()
    }

    /// The name at position `i`.
    pub fn name_at(&self, i: usize) -> (name: &String)
        requires
            i < self@.len(),
        ensures
            name@ == self@[i as int].0,
    {
        &self.aliases[i].0
    }

    /// The command at position `i`.
    pub fn command_at(&self, i: usize) -> (command: &String)
        requires
            i < self@.len(),
        ensures
            command@ == self@[i as int].1,
    {
        &self.aliases[i].1
    }

    fn place(&self, name: &str) -> (place: (usize, bool))
        requires
            self.wf(),
        ensures
            is_place(self@, name@, place.0 as int, place.1),
    {
        let place = scan(&self.aliases, name);
        proof {
            lemma_scanned(self@, name@, place.0 as int);
        }
        place
    }

    /// The command of `name`, if the table has that name.
    pub fn get(&self, name: &str) -> (command: Option<&String>)
        requires
            self.wf(),
        ensures
            command is Some == has_key(self@, name@),
            command matches Some(c) ==> c@ == value_of(self@, name@),
    {
        let (i, found) = self.place(name);
        if found {
            proof {
                lemma_key_found(self@, name@, i as int);
            }
            Some(&self.aliases[i].1)
        } else {
            None
        }
    }

    /// Gives `name` the command `command`: in the place of the command it
    /// had, or as a new alias at the place of its name.
    pub fn insert(&mut self, name: String, command: String)
        requires
            old(self).wf(),
        ensures
            final(self)@ == put(old(self)@, name@, command@),
            final(self).wf(),
    {
        proof {
            lemma_put(self@, name@, command@);
        }
        let (i, found) = self.place(name.as_str());
        if found {
            proof {
                lemma_key_found(self@, name@, i as int);
            }
            self.aliases[i] = (name, command);
            assert(self@ =~= put(old(self)@, name@, command@));
        } else {
            self.aliases.insert(i, (name, command));
            assert(self@ =~= put(old(self)@, name@, command@));
        }
    }

    /// Takes `name` out of the table; says whether it was there.
    pub fn remove(&mut self, name: &str) -> (had: bool)
        requires
            old(self).wf(),
        ensures
            had == has_key(old(self)@, name@),
            final(self)@ == without(old(self)@, name@),
            final(self).wf(),
    {
        proof {
            lemma_without(self@, name@);
        }
        let (i, found) = self.place(name);
        if found {
            proof {
                lemma_key_found(self@, name@, i as int);
            }
            self.aliases.remove(i);
            assert(self@ =~= without(old(self)@, name@));
        }
        found
    }
}

/// A table of aliases, as texts.
pub type Table = Seq<(Seq<char>, Seq<char>)>;

/// The tables of the directories, as texts.
pub type Tables = Seq<(Seq<char>, Table)>;

/// The directories are in order, and in every table the names.
pub open spec fn well_formed(tables: Tables) -> bool {
    &&& sorted_keys(tables)
    &&& forall|i: int| 0 <= i < tables.len() ==> sorted_keys(#[trigger] tables[i].1)
}

/// The whole configuration: each configured directory with its table, in the
/// order of the texts of the directories. Directories are told apart by
/// their text.
#[derive(Debug, PartialEq, Eq)]
pub struct Entries {
    tables: Vec<(String, Entry)>,
}

/// The pairs of a vector of directories and tables, as texts.
pub open spec fn tables_view(v: Seq<(String, Entry)>) -> Tables {
    Seq::new(v.len(), |i: int| (v[i].0@, v[i].1@))
}

impl View for Entries {
    type V = Tables;

    closed spec fn view(&self) -> Tables {
        tables_view(self.tables@)
    }
}

impl Entries {
    /// The directories are in order, and in every table the names.
    pub open spec fn wf(&self) -> bool {
        well_formed(self@)
    }

    /// A configuration without directories.
    pub fn new() -> (entries: Entries)
        ensures
            entries@ == Tables::empty(),
            entries.wf(),
    {
        let entries = Entries { tables: Vec::new() };
        assert(entries@ =~= Seq::empty());
        entries
    }

    /// The number of directories.
    pub fn len(&self) -> (n: usize)
        ensures
            n == self@.len(),
    {
        self.tables.len()
    }

    /// The directory at position `i`.
    pub fn path_at(&self, i: usize) -> (path: &String)
        requires
            i < self@.len(),
        ensures
            path@ == self@[i as int].0,
    {
        &self.tables[i].0
    }

    /// The table at position `i`.
    pub fn entry_at(&self, i: usize) -> (entry: &Entry)
        requires
            i < self@.len(),
        ensures
            entry@ == self@[i as int].1,
            self.wf() ==> entry.wf(),
    {
        assert(self.wf() ==> sorted_keys(self@[i as int].1));
        &self.tables[i].1
    }

    fn place(&self, path: &str) -> (place: (usize, bool))
        requires
            self.wf(),
        ensures
            is_place(self@, path@, place.0 as int, place.1),
    {
        let place = scan(&self.tables, path);
        proof {
            lemma_scanned(self@, path@, place.0 as int);
        }
        place
    }

    /// The table of the directory `path`, if it is configured.
    pub fn get(&self, path: &str) -> (entry: Option<&Entry>)
        requires
            self.wf(),
        ensures
            entry is Some == has_key(self@, path@),
            entry matches Some(e) ==> e@ == value_of(self@, path@) && e.wf(),
    {
        let (i, found) = self.place(path);
        if found {
            proof {
                lemma_key_found(self@, path@, i as int);
            }
            Some(&self.tables[i].1)
        } else {
            None
        }
    }

    /// Gives the directory `path` the table `entry`: in the place of the
    /// table it had, or as a new directory at the place of its text.
    pub fn insert(&mut self, path: String, entry: Entry)
        requires
            old(self).wf(),
            entry.wf(),
        ensures
            final(self)@ == put(old(self)@, path@, entry@),
            final(self).wf(),
    {
        proof {
            lemma_put(self@, path@, entry@);
        }
        let (i, found) = self.place(path.as_str());
        if found {
            proof {
                lemma_key_found(self@, path@, i as int);
            }
            self.tables[i] = (path, entry);
            assert(self@ =~= put(old(self)@, path@, entry@));
        } else {
            self.tables.insert(i, (path, entry));
            assert(self@ =~= put(old(self)@, path@, entry@));
        }
    }

    /// Gives `name` the command `command` in the table at position `i`.
    pub fn insert_alias(&mut self, i: usize, name: String, command: String)
        requires
            old(self).wf(),
            i < old(self)@.len(),
        ensures
            final(self)@ == old(self)@.update(
                i as int,
                (old(self)@[i as int].0, put(old(self)@[i as int].1, name@, command@)),
            ),
            final(self).wf(),
    {
        proof {
            lemma_put(self@[i as int].1, name@, command@);
            lemma_update_sorted(self@, i as int, put(self@[i as int].1, name@, command@));
        }
        self.tables[i].1.insert(name, command);
        assert(self@ =~= old(self)@.update(
            i as int,
            (old(self)@[i as int].0, put(old(self)@[i as int].1, name@, command@)),
        ));
    }

    /// Takes `name` out of the table at position `i`; says whether it was
    /// there.
    pub fn remove_alias(&mut self, i: usize, name: &str) -> (had: bool)
        requires
            old(self).wf(),
            i < old(self)@.len(),
        ensures
            had == has_key(old(self)@[i as int].1, name@),
            final(self)@ == old(self)@.update(
                i as int,
                (old(self)@[i as int].0, without(old(self)@[i as int].1, name@)),
            ),
            final(self).wf(),
    {
        proof {
            lemma_without(self@[i as int].1, name@);
            lemma_update_sorted(self@, i as int, without(self@[i as int].1, name@));
        }
        let had = self.tables[i].1.remove(name);
        assert(self@ =~= old(self)@.update(
            i as int,
            (old(self)@[i as int].0, without(old(self)@[i as int].1, name@)),
        ));
        had
    }
}

/// The configuration as plain values: what the codec reads and gives.
pub type PlainTables = Vec<(String, Vec<(String, String)>)>;

/// Plain tables, as texts.
pub open spec fn plain_view(v: Seq<(String, Vec<(String, String)>)>) -> Tables {
    Seq::new(v.len(), |i: int| (v[i].0@, pairs_view(v[i].1@)))
}

/// The pairs of `pairs` put one after the other into an empty table, each
/// at the place of its name: of two pairs with one name, the later gives the
/// command.
pub open spec fn gathered_table(pairs: Table) -> Table
    decreases pairs.len(),
{
    if pairs.len() == 0 {
        Seq::empty()
    } else {
        put(gathered_table(pairs.drop_last()), pairs.last().0, pairs.last().1)
    }
}

/// The tables of `tables` put one after the other into an empty
/// configuration, each at the place of its directory: of two tables of one
/// directory, the later stays.
pub open spec fn gathered(tables: Tables) -> Tables
    decreases tables.len(),
{
    if tables.len() == 0 {
        Seq::empty()
    } else {
        put(gathered(tables.drop_last()), tables.last().0, gathered_table(tables.last().1))
    }
}

/// A table whose names are in order is gathered as it is.
pub proof fn lemma_gathered_table_same(pairs: Table)
    requires
        sorted_keys(pairs),
    ensures
        gathered_table(pairs) == pairs,
    decreases pairs.len(),
{
    if pairs.len() > 0 {
        let init = pairs.drop_last();
        assert forall|i: int, j: int|
            #![trigger init[i], init[j]]
            0 <= i < j < init.len() implies text_lt(init[i].0, init[j].0) by {
            assert(text_lt(pairs[i].0, pairs[j].0));
        }
        lemma_gathered_table_same(init);
        assert forall|j: int| 0 <= j < init.len() implies text_lt(
            (#[trigger] init[j]).0,
            pairs.last().0,
        ) by {
            assert(text_lt(pairs[j].0, pairs[pairs.len() - 1].0));
        }
        lemma_put_last(init, pairs.last().0, pairs.last().1);
        assert(init.push(pairs.last()) =~= pairs);
    }
}

/// A well-formed configuration is gathered as it is.
pub proof fn lemma_gathered_same(tables: Tables)
    requires
        well_formed(tables),
    ensures
        gathered(tables) == tables,
    decreases tables.len(),
{
    if tables.len() > 0 {
        let init = tables.drop_last();
        assert forall|i: int, j: int|
            #![trigger init[i], init[j]]
            0 <= i < j < init.len() implies text_lt(init[i].0, init[j].0) by {
            assert(text_lt(tables[i].0, tables[j].0));
        }
        assert forall|i: int| 0 <= i < init.len() implies sorted_keys(#[trigger] init[i].1) by {
            assert(sorted_keys(tables[i].1));
        }
        lemma_gathered_same(init);
        assert(sorted_keys(tables[tables.len() - 1].1));
        lemma_gathered_table_same(tables.last().1);
        assert forall|j: int| 0 <= j < init.len() implies text_lt(
            (#[trigger] init[j]).0,
            tables.last().0,
        ) by {
            assert(text_lt(tables[j].0, tables[tables.len() - 1].0));
        }
        lemma_put_last(init, tables.last().0, tables.last().1);
        assert(init.push(tables.last()) =~= tables);
    }
}

impl Entry {
    /// The table that holds the pairs of `pairs`, put into it one after the
    /// other.
    pub fn from_pairs(pairs: &Vec<(String, String)>) -> (entry: Entry)
        ensures
            entry@ == gathered_table(pairs_view(pairs@)),
            entry.wf(),
    {
        let mut entry = Entry::new();
        let mut i: usize = 0;
        while i < pairs.len()
            invariant
                i <= pairs.len(),
                entry.wf(),
                entry@ == gathered_table(pairs_view(pairs@).take(i as int)),
            decreases pairs.len() - i,
        {
            assert(pairs_view(pairs@).take(i + 1).drop_last() =~= pairs_view(pairs@).take(i as int));
            entry.insert(pairs[i].0.clone(), pairs[i].1.clone());
            i += 1;
        }
        assert(pairs_view(pairs@).take(pairs.len() as int) =~= pairs_view(pairs@));
        entry
    }

    /// The pairs of the table, in their order.
    pub fn to_pairs(&self) -> (pairs: Vec<(String, String)>)
        ensures
            pairs_view(pairs@) == self@,
    {
        let mut pairs: Vec<(String, String)> = Vec::new();
        let mut i: usize = 0;
        while i < self.aliases.len()
            invariant
                i <= self.aliases.len(),
                self@.len() == self.aliases.len(),
                pairs@.len() == i,
                pairs_view(pairs@) == self@.take(i as int),
            decreases self.aliases.len() - i,
        {
            let ghost before = pairs@;
            pairs.push((self.aliases[i].0.clone(), self.aliases[i].1.clone()));
            assert forall|j: int| 0 <= j < i + 1 implies pairs_view(pairs@)[j] == self@[j] by {
                if j < i {
                    assert(pairs_view(before)[j] == self@.take(i as int)[j]);
                }
            }
            assert(pairs_view(pairs@) =~= self@.take(i + 1));
            i += 1;
        }
        assert(self@.take(self.aliases.len() as int) =~= self@);
        pairs
    }
}

impl Entries {
    /// The configuration that holds the tables of `tables`, put into it one
    /// after the other.
    pub fn from_tables(tables: &PlainTables) -> (entries: Entries)
        ensures
            entries@ == gathered(plain_view(tables@)),
            entries.wf(),
    {
        let mut entries = Entries::new();
        let mut i: usize = 0;
        while i < tables.len()
            invariant
                i <= tables.len(),
                entries.wf(),
                entries@ == gathered(plain_view(tables@).take(i as int)),
            decreases tables.len() - i,
        {
            assert(plain_view(tables@).take(i + 1).drop_last() =~= plain_view(tables@).take(
                i as int,
            ));
            let entry = Entry::from_pairs(&tables[i].1);
            entries.insert(tables[i].0.clone(), entry);
            i += 1;
        }
        assert(plain_view(tables@).take(tables.len() as int) =~= plain_view(tables@));
        entries
    }

    /// The directories and their tables as plain values, in their order.
    pub fn to_tables(&self) -> (tables: PlainTables)
        ensures
            plain_view(tables@) == self@,
    {
        let mut tables: PlainTables = Vec::new();
        let mut i: usize = 0;
        while i < self.tables.len()
            invariant
                i <= self.tables.len(),
                self@.len() == self.tables.len(),
                tables@.len() == i,
                plain_view(tables@) == self@.take(i as int),
            decreases self.tables.len() - i,
        {
            let ghost before = tables@;
            tables.push((self.tables[i].0.clone(), self.tables[i].1.to_pairs()));
            assert forall|j: int| 0 <= j < i + 1 implies plain_view(tables@)[j] == self@[j] by {
                if j < i {
                    assert(plain_view(before)[j] == self@.take(i as int)[j]);
                }
            }
            assert(plain_view(tables@) =~= self@.take(i + 1));
            i += 1;
        }
        assert(self@.take(self.tables.len() as int) =~= self@);
        tables
    }
}

/// What `toml::from_str` makes of a text that is read as a table of tables
/// of texts: the directories in the order of their texts, each with its
/// aliases in the order of their names; or, where the text is no such
/// document, the message with which it is refused.
pub uninterp spec fn toml_tables(text: Seq<char>) -> Result<Seq<(Seq<char>, Seq<(Seq<char>, Seq<char>)>)>, Seq<char>>;

/// What `toml::to_string_pretty` makes of a table of tables of texts: the
/// text of the document, or the message with which it refuses.
pub uninterp spec fn toml_text(tables: Seq<(Seq<char>, Seq<(Seq<char>, Seq<char>)>)>) -> Result<Seq<char>, Seq<char>>;

/// What was read, as texts.
pub open spec fn decoded_view(decoded: Result<PlainTables, String>) -> Result<Tables, Seq<char>> {
    match decoded {
        Ok(tables) => Ok(plain_view(tables@)),
        Err(message) => Err(message@),
    }
}

/// What was written, as text.
pub open spec fn encoded_view(encoded: Result<String, String>) -> Result<Seq<char>, Seq<char>> {
    match encoded {
        Ok(text) => Ok(text@),
        Err(message) => Err(message@),
    }
}

/// Calls `toml::from_str` for a map from texts to maps from texts to texts,
/// and lists what it read; where it refuses the text, gives its message.
/// Trusted: that what it reads, or the message, depends on the text alone.
/// The parser descends into nested arrays and inline tables without a limit
/// of its own.
#[verifier::external_body]
fn decode_tables(text: &str) -> (decoded: Result<PlainTables, String>)
    ensures
        decoded_view(decoded) == toml_tables(text@),
{
    match toml::from_str::<BTreeMap<String, BTreeMap<String, String>>>(text) {
        Ok(read) => Ok(
            read.into_iter().map(|(path, table)| (path, table.into_iter().collect())).collect(),
        ),
        Err(cause) => Err(cause.to_string()),
    }
}

/// Hands the tables to `toml::to_string_pretty` as a map from texts to maps
/// from texts to texts, which holds them in the order in which they come
/// here; where it refuses them, gives its message. Trusted: that what it
/// writes, or the message, depends on the tables alone.
#[verifier::external_body]
fn encode_tables(tables: &PlainTables) -> (encoded: Result<String, String>)
    requires
        well_formed(plain_view(tables@)),
    ensures
        encoded_view(encoded) == toml_text(plain_view(tables@)),
{
    let map: BTreeMap<String, BTreeMap<String, String>> = tables.iter().map(
        |(path, table)| (path.clone(), table.iter().cloned().collect()),
    ).collect();
    match toml::to_string_pretty(&map) {
        Ok(text) => Ok(text),
        Err(cause) => Err(cause.to_string()),
    }
}

/// What a text holds as a configuration, or why it is none.
pub open spec fn parsed(text: Seq<char>) -> Result<Tables, ErrorText> {
    match toml_tables(text) {
        Ok(tables) => Ok(gathered(tables)),
        Err(message) => Err(ErrorText::UnableToParse(message)),
    }
}

/// The text of a configuration, or why it has none.
pub open spec fn written(tables: Tables) -> Result<Seq<char>, ErrorText> {
    match toml_text(tables) {
        Ok(text) => Ok(text),
        Err(message) => Err(ErrorText::UnableToSerialize(message)),
    }
}

/// Reads a configuration from its text. The text has to be a table whose
/// values are tables of texts, and nothing else.
pub fn parse_toml(c: &str) -> (read: Result<Entries, Error>)
    ensures
        match read {
            Ok(entries) => parsed(c@) == Ok::<Tables, ErrorText>(entries@) && entries.wf(),
            Err(error) => parsed(c@) == Err::<Tables, ErrorText>(error@),
        },
{
    match decode_tables(c) {
        Ok(tables) => Ok(Entries::from_tables(&tables)),
        Err(cause) => Err(Error::UnableToParse(cause)),
    }
}

/// Writes a configuration as text.
pub fn to_toml(entries: &Entries) -> (text: Result<String, Error>)
    requires
        entries.wf(),
    ensures
        match text {
            Ok(t) => written(entries@) == Ok::<Seq<char>, ErrorText>(t@),
            Err(error) => written(entries@) == Err::<Seq<char>, ErrorText>(error@),
        },
{
    let tables = entries.to_tables();
    match encode_tables(&tables) {
        Ok(text) => Ok(text),
        Err(cause) => Err(Error::UnableToSerialize(cause)),
    }
}

/// A well-formed configuration that the codec reads from a text is the
/// configuration that the text holds: nothing is merged or dropped. So a
/// text from which the codec reads the tables that were written holds the
/// configuration that was written.
pub proof fn lemma_read_back(tables: Tables, text: Seq<char>)
    requires
        well_formed(tables),
        toml_tables(text) == Ok::<Tables, Seq<char>>(tables),
    ensures
        parsed(text) == Ok::<Tables, ErrorText>(tables),
{
    lemma_gathered_same(tables);
}

} // verus!
