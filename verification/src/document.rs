//! The whole stored state: one scope for each directory that has one.

use vstd::prelude::*;
use crate::error::Error;
use crate::json::{decode, encode, json_decoded, json_encoded};
use crate::scope::{PairList, Pairs, Scope, ScopeMap};
use crate::table::{
    bound, distinct_keys, gathered, lemma_bound, lemma_bound_twice, lemma_gathered,
    lemma_gathered_distinct, lemma_map_listing_bound, lemma_map_listing_slot, lemma_slot_binds,
    lemma_table_keys, lemma_table_lookup, lemma_unbound, lookup, map_listing, slot_of,
    table_of, unbound, Table,
};

verus! {

/// Directories in order, each a path with its pairs.
pub type Directories = Seq<(Seq<char>, Pairs)>;

/// A mapping from directory paths to scopes.
pub type DocumentMap = Map<Seq<char>, ScopeMap>;

/// The fields of a stored file in order, each a name with its directories.
pub type Fields = Seq<(Seq<char>, Directories)>;

/// Directories as they are handed in and out.
pub type DirectoryList = Vec<(String, PairList)>;

/// The fields of a stored file as they are handed in and out.
pub type FieldList = Vec<(String, DirectoryList)>;

/// The mapping that pairs denote.
pub open spec fn mapping_of() -> spec_fn(Pairs) -> ScopeMap {
    |pairs: Pairs| table_of(pairs)
}

/// The mapping from directories to scopes that a listing of directories
/// denotes.
pub open spec fn document_of(listing: Directories) -> DocumentMap {
    table_of(map_listing(listing, mapping_of()))
}

/// Distinct directories, each with distinct keys.
pub open spec fn well_formed(listing: Directories) -> bool {
    &&& distinct_keys(listing)
    &&& forall|i: int| 0 <= i < listing.len() ==> distinct_keys(#[trigger] listing[i].1)
}

/// The pairs that a listing holds for a directory; none where it has no
/// entry for it.
pub open spec fn pairs_at(listing: Directories, dir: Seq<char>) -> Pairs {
    match lookup(listing, dir) {
        Some(pairs) => pairs,
        None => Seq::empty(),
    }
}

/// The listing after `key` was set to `value` for `dir`.
pub open spec fn with_pair(
    listing: Directories,
    dir: Seq<char>,
    key: Seq<char>,
    value: Seq<char>,
) -> Directories {
    bound(listing, dir, bound(pairs_at(listing, dir), key, value))
}

/// The listing after `key` was deleted for `dir`.
pub open spec fn without_pair(listing: Directories, dir: Seq<char>, key: Seq<char>) -> Directories {
    if slot_of(listing, dir) is Some {
        bound(listing, dir, unbound(pairs_at(listing, dir), key))
    } else {
        listing
    }
}

/// The scope of a directory; the empty scope where the document has none
/// for it.
pub open spec fn scope_at(document: DocumentMap, dir: Seq<char>) -> ScopeMap {
    if document.contains_key(dir) {
        document[dir]
    } else {
        Map::empty()
    }
}

/// The document after `key` was set to `value` for `dir`: the directory has
/// a scope, and in it the key has the value.
pub open spec fn added(
    document: DocumentMap,
    dir: Seq<char>,
    key: Seq<char>,
    value: Seq<char>,
) -> DocumentMap {
    document.insert(dir, scope_at(document, dir).insert(key, value))
}

/// The document after `key` was deleted for `dir`. A directory without a
/// scope gets none.
pub open spec fn removed(document: DocumentMap, dir: Seq<char>, key: Seq<char>) -> DocumentMap {
    if document.contains_key(dir) {
        document.insert(dir, document[dir].remove(key))
    } else {
        document
    }
}

/// The pairs that come of setting the given ones one after another.
pub open spec fn gathered_pairs() -> spec_fn(Pairs) -> Pairs {
    |pairs: Pairs| gathered(pairs)
}

/// The listing that comes of giving each directory its pairs, gathered, one
/// directory after another: of a directory that comes twice, the later
/// pairs are the ones that stay.
pub open spec fn gathered_directories(entries: Directories) -> Directories {
    gathered(map_listing(entries, gathered_pairs()))
}

/// The name of the field of a stored file that holds the directories.
pub open spec fn field_name() -> Seq<char> {
    "projector"@
}

/// The fields that a listing is stored as: the one field [`field_name`].
pub open spec fn fields_of(listing: Directories) -> Fields {
    seq![(field_name(), listing)]
}

/// The directories that a stored file holds: those of its field
/// [`field_name`]. A file that could not be read as fields, or has no such
/// field, holds none.
pub open spec fn stored(fields: Option<Fields>) -> Directories {
    match fields {
        Some(fields) => if table_of(fields).contains_key(field_name()) {
            table_of(fields)[field_name()]
        } else {
            Seq::empty()
        },
        None => Seq::empty(),
    }
}

/// The document of directories.
pub open spec fn documents() -> spec_fn(Directories) -> DocumentMap {
    |listing: Directories| document_of(listing)
}

/// What the fields of a stored file denote: under each name the document of
/// its directories.
pub open spec fn denoted(fields: Fields) -> Map<Seq<char>, DocumentMap> {
    table_of(fields).map_values(documents())
}

/// The pairs of a scope.
pub open spec fn pairs_of() -> spec_fn(Scope) -> Pairs {
    |scope: Scope| scope.listing()
}

/// The stored state. Its view maps each directory that has a scope to that
/// scope; its listing holds the directories in the order in which they first
/// came, each with its pairs in theirs.
#[derive(Debug)]
pub struct Document {
    table: Table<Scope>,
}

impl View for Document {
    type V = DocumentMap;

    open spec fn view(&self) -> DocumentMap {
        document_of(self.listing())
    }
}

impl Document {
    /// The directories in order.
    pub closed spec fn listing(&self) -> Directories {
        map_listing(self.table.listing(), pairs_of())
    }

    /// A document without scopes.
    pub fn new() -> (document: Self)
        ensures
            document.listing() == Directories::empty(),
            document@ == DocumentMap::empty(),
    {
        let document = Document { table: Table::new() };
        assert(document.listing() =~= Directories::empty());
        assert(map_listing(Directories::empty(), mapping_of()) =~= Seq::empty());
        document
    }

    /// The number of directories that have a scope. No directory occurs
    /// twice in the listing.
    pub fn len(&self) -> (count: usize)
        ensures
            count == self.listing().len(),
            distinct_keys(self.listing()),
    {
        let count = self.table.len();
        proof {
            lemma_map_listing_slot(self.table.listing(), pairs_of(), Seq::empty());
        }
        count
    }

    /// The scope of `dir`.
    pub fn scope(&self, dir: &str) -> (found: Option<&Scope>)
        ensures
            match found {
                Some(scope) => self@.contains_key(dir@) && self@[dir@] == scope@
                    && scope.listing() == pairs_at(self.listing(), dir@),
                None => !self@.contains_key(dir@) && slot_of(self.listing(), dir@) is None,
            },
    {
        let found = self.table.get(dir);
        proof {
            lemma_map_listing_slot(self.table.listing(), pairs_of(), dir@);
            lemma_document_lookup(self.listing(), dir@);
            lemma_slot_binds(self.listing(), dir@);
        }
        found
    }

    /// Sets `key` to `value` for `dir`. The directory gets a scope if it had
    /// none.
    pub fn set(&mut self, dir: &str, key: String, value: String)
        ensures
            final(self).listing() == with_pair(old(self).listing(), dir@, key@, value@),
            final(self)@ == added(old(self)@, dir@, key@, value@),
    {
        let ghost raw = self.table.listing();
        let placeholder = Scope::new();
        let ghost blank = placeholder;
        let mut scope = match self.table.insert(dir.to_owned(), placeholder) {
            Some(existing) => existing,
            None => Scope::new(),
        };
        proof {
            lemma_map_listing_slot(raw, pairs_of(), dir@);
            lemma_slot_binds(raw, dir@);
        }
        assert(scope.listing() == pairs_at(old(self).listing(), dir@));
        scope.insert(key, value);
        proof {
            lemma_bound_twice(raw, dir@, blank, scope);
            lemma_map_listing_bound(raw, pairs_of(), dir@, scope);
            lemma_with_pair(old(self).listing(), dir@, key@, value@);
        }
        self.table.insert(dir.to_owned(), scope);
    }

    /// Deletes `key` for `dir` and says whether it was there. Nothing
    /// changes where the directory has no scope or the scope has no such
    /// key.
    pub fn unset(&mut self, dir: &str, key: &str) -> (deleted: bool)
        ensures
            final(self).listing() == without_pair(old(self).listing(), dir@, key@),
            final(self)@ == removed(old(self)@, dir@, key@),
            deleted == (old(self)@.contains_key(dir@) && old(self)@[dir@].contains_key(key@)),
    {
        let ghost raw = self.table.listing();
        let slot = self.table.position(dir);
        proof {
            lemma_map_listing_slot(raw, pairs_of(), dir@);
            lemma_slot_binds(raw, dir@);
            lemma_document_lookup(self.listing(), dir@);
        }
        if slot.is_none() {
            return false;
        }
        let placeholder = Scope::new();
        let ghost blank = placeholder;
        let mut scope = self.table.insert(dir.to_owned(), placeholder).unwrap();
        assert(scope.listing() == pairs_at(old(self).listing(), dir@));
        let deleted = scope.remove(key);
        proof {
            lemma_bound_twice(raw, dir@, blank, scope);
            lemma_map_listing_bound(raw, pairs_of(), dir@, scope);
            lemma_without_pair(old(self).listing(), dir@, key@);
        }
        self.table.insert(dir.to_owned(), scope);
        deleted
    }
}

impl Document {
    /// The directories in order, each with its pairs, all copied out.
    pub fn entries(&self) -> (entries: DirectoryList)
        ensures
            entries.deep_view() == self.listing(),
            well_formed(self.listing()),
    {
        let count = self.len();
        let mut entries: DirectoryList = Vec::new();
        let mut index: usize = 0;
        while index < count
            invariant
                index <= count,
                count == self.table.listing().len(),
                entries.deep_view() =~= self.listing().take(index as int),
                forall|i: int| 0 <= i < index ==> distinct_keys(#[trigger] self.listing()[i].1),
            decreases count - index,
        {
            if let Some((dir, scope)) = self.table.entry(index) {
                let pairs = scope.entries();
                let ghost before = entries.deep_view();
                entries.push((dir.clone(), pairs));
                assert(entries.deep_view() =~= before.push((dir@, pairs.deep_view())));
            }
            index += 1;
        }
        assert(self.listing().take(count as int) =~= self.listing());
        entries
    }

    /// The document that comes of giving each directory its pairs, one
    /// directory after another.
    pub fn from_entries(entries: &DirectoryList) -> (document: Self)
        ensures
            document.listing() == gathered_directories(entries.deep_view()),
            document@ == document_of(entries.deep_view()),
    {
        let ghost given = entries.deep_view();
        let mut document = Document::new();
        let mut index: usize = 0;
        while index < entries.len()
            invariant
                index <= entries.len(),
                given == entries.deep_view(),
                document.listing() == gathered_directories(given.take(index as int)),
            decreases entries.len() - index,
        {
            let dir = entries[index].0.clone();
            let scope = Scope::from_entries(&entries[index].1);
            let ghost raw = document.table.listing();
            let ghost held = (dir@, scope);
            document.table.insert(dir, scope);
            proof {
                let next = given.take(index + 1);
                let inner = map_listing(next, gathered_pairs());
                assert(inner.drop_last() =~= map_listing(
                    given.take(index as int),
                    gathered_pairs(),
                ));
                assert(inner.last() == (held.0, held.1.listing()));
                lemma_map_listing_bound(raw, pairs_of(), held.0, held.1);
            }
            index += 1;
        }
        proof {
            assert(given.take(entries.len() as int) =~= given);
            lemma_gathered_directories(given);
        }
        document
    }

    /// The document that a stored file holds, the file given as the fields
    /// that were read from it, or as `None` where none could be read.
    pub fn from_fields(fields: Option<FieldList>) -> (document: Self)
        ensures
            document.listing() == gathered_directories(stored(fields.deep_view())),
            document@ == document_of(stored(fields.deep_view())),
            fields is None ==> {
                &&& document.listing() == Directories::empty()
                &&& document@ == DocumentMap::empty()
            },
    {
        let mut document = Document::new();
        proof {
            lemma_gathered_directories(Seq::empty());
            assert(gathered_directories(Seq::empty()) =~= Directories::empty());
        }
        match fields {
            None => document,
            Some(fields) => {
                let ghost given = fields.deep_view();
                let wanted = String::from_str("projector");
                let mut index: usize = 0;
                while index < fields.len()
                    invariant
                        index <= fields.len(),
                        given == fields.deep_view(),
                        wanted@ == field_name(),
                        document.listing() == gathered_directories(
                            stored(Some(given.take(index as int))),
                        ),
                    decreases fields.len() - index,
                {
                    proof {
                        let next = given.take(index + 1);
                        assert(next.drop_last() =~= given.take(index as int));
                        assert(next.last() == (
                            fields[index as int].0@,
                            fields[index as int].1.deep_view(),
                        ));
                    }
                    if fields[index].0 == wanted {
                        document = Document::from_entries(&fields[index].1);
                    }
                    index += 1;
                }
                proof {
                    assert(given.take(fields.len() as int) =~= given);
                    lemma_gathered_directories(stored(Some(given)));
                }
                document
            },
        }
    }

    /// The document that a text holds. A text that is not the JSON text of a
    /// stored file holds the empty document.
    pub fn parse(text: &str) -> (document: Self)
        ensures
            document.listing() == gathered_directories(stored(json_decoded(text@))),
            document@ == document_of(stored(json_decoded(text@))),
            json_decoded(text@) is None ==> {
                &&& document.listing() == Directories::empty()
                &&& document@ == DocumentMap::empty()
            },
    {
        Document::from_fields(decode(text))
    }

    /// The fields that the document is stored as.
    pub fn fields(&self) -> (fields: FieldList)
        ensures
            fields.deep_view() == fields_of(self.listing()),
            well_formed(self.listing()),
    {
        let entries = self.entries();
        let mut fields: FieldList = Vec::new();
        fields.push((String::from_str("projector"), entries));
        assert(fields.deep_view() =~= fields_of(self.listing()));
        fields
    }

    /// The outcome of writing a document as text, from what the encoder gave.
    pub fn written(encoded: Option<String>) -> (outcome: Result<String, Error>)
        ensures
            match encoded {
                Some(text) => outcome == Ok::<String, Error>(text),
                None => outcome == Err::<String, Error>(Error::Persistence),
            },
    {
        match encoded {
            Some(text) => Ok(text),
            None => Err(Error::Persistence),
        }
    }

    /// The JSON text of the stored file.
    pub fn serialize(&self) -> (outcome: Result<String, Error>)
        ensures
            match outcome {
                Ok(text) => json_encoded(fields_of(self.listing())) == Some(text@),
                Err(error) => json_encoded(fields_of(self.listing())) is None && error
                    == Error::Persistence,
            },
    {
        let fields = self.fields();
        Document::written(encode(&fields))
    }
}

/// The directories of the mapping are those of the listing, and the scope of
/// each is what its pairs denote.
pub proof fn lemma_document_lookup(listing: Directories, dir: Seq<char>)
    requires
        distinct_keys(listing),
    ensures
        document_of(listing).contains_key(dir) <==> slot_of(listing, dir) is Some,
        scope_at(document_of(listing), dir) == table_of(pairs_at(listing, dir)),
{
    let mapped = map_listing(listing, mapping_of());
    lemma_map_listing_slot(listing, mapping_of(), dir);
    lemma_table_keys(mapped, dir);
    lemma_slot_binds(listing, dir);
    if slot_of(listing, dir) is Some {
        lemma_table_lookup(mapped, slot_of(listing, dir).unwrap());
    }
}

/// Giving a directory new pairs gives it the scope that they denote.
pub proof fn lemma_document_bound(listing: Directories, dir: Seq<char>, pairs: Pairs)
    requires
        distinct_keys(listing),
    ensures
        distinct_keys(bound(listing, dir, pairs)),
        document_of(bound(listing, dir, pairs)) == document_of(listing).insert(
            dir,
            table_of(pairs),
        ),
{
    lemma_bound(listing, dir, pairs);
    lemma_map_listing_bound(listing, mapping_of(), dir, pairs);
    lemma_map_listing_slot(listing, mapping_of(), dir);
    lemma_bound(map_listing(listing, mapping_of()), dir, table_of(pairs));
}

/// Setting a key in the listing sets it in the mapping.
pub proof fn lemma_with_pair(listing: Directories, dir: Seq<char>, key: Seq<char>, value: Seq<char>)
    requires
        distinct_keys(listing),
        distinct_keys(pairs_at(listing, dir)),
    ensures
        distinct_keys(with_pair(listing, dir, key, value)),
        document_of(with_pair(listing, dir, key, value)) == added(
            document_of(listing),
            dir,
            key,
            value,
        ),
{
    lemma_document_lookup(listing, dir);
    lemma_bound(pairs_at(listing, dir), key, value);
    lemma_document_bound(listing, dir, bound(pairs_at(listing, dir), key, value));
}

/// Deleting a key in the listing deletes it in the mapping.
pub proof fn lemma_without_pair(listing: Directories, dir: Seq<char>, key: Seq<char>)
    requires
        distinct_keys(listing),
        distinct_keys(pairs_at(listing, dir)),
    ensures
        distinct_keys(without_pair(listing, dir, key)),
        document_of(without_pair(listing, dir, key)) == removed(document_of(listing), dir, key),
{
    lemma_document_lookup(listing, dir);
    lemma_unbound(pairs_at(listing, dir), key);
    lemma_document_bound(listing, dir, unbound(pairs_at(listing, dir), key));
}

/// Gathered directories are well formed and denote what the entries denote.
pub proof fn lemma_gathered_directories(entries: Directories)
    ensures
        well_formed(gathered_directories(entries)),
        document_of(gathered_directories(entries)) == document_of(entries),
    decreases entries.len(),
{
    let inner = map_listing(entries, gathered_pairs());
    lemma_gathered(inner);
    if entries.len() == 0 {
        assert(map_listing(gathered_directories(entries), mapping_of()) =~= map_listing(
            entries,
            mapping_of(),
        ));
    } else {
        let front = entries.drop_last();
        let last = entries.last();
        lemma_gathered_directories(front);
        let before = gathered_directories(front);
        assert(inner.drop_last() =~= map_listing(front, gathered_pairs()));
        assert(gathered_directories(entries) == bound(before, last.0, gathered(last.1)));
        lemma_gathered(last.1);
        lemma_document_bound(before, last.0, gathered(last.1));
        assert(map_listing(entries, mapping_of()).drop_last() =~= map_listing(
            front,
            mapping_of(),
        ));
        let after = gathered_directories(entries);
        lemma_slot_binds(before, last.0);
        assert forall|i: int| 0 <= i < after.len() implies distinct_keys(
            #[trigger] after[i].1,
        ) by {
            if i < before.len() && after[i] == before[i] {
            } else {
                assert(after[i].1 == gathered(last.1));
            }
        }
    }
}

/// A well-formed listing is gathered as it stands.
pub proof fn lemma_gathered_well_formed(listing: Directories)
    requires
        well_formed(listing),
    ensures
        gathered_directories(listing) == listing,
{
    assert(map_listing(listing, gathered_pairs()) =~= listing) by {
        assert forall|i: int| 0 <= i < listing.len() implies gathered(#[trigger] listing[i].1)
            == listing[i].1 by {
            lemma_gathered_distinct(listing[i].1);
        }
    }
    lemma_gathered_distinct(listing);
}

/// Reading back the fields that a well-formed listing is stored as gives the
/// listing.
pub proof fn lemma_stored_fields(listing: Directories)
    requires
        well_formed(listing),
    ensures
        stored(Some(fields_of(listing))) == listing,
        gathered_directories(stored(Some(fields_of(listing)))) == listing,
{
    let fields = fields_of(listing);
    assert(fields.drop_last() =~= Seq::empty());
    assert(table_of(fields.drop_last()) =~= Map::empty());
    assert(table_of(fields) =~= Map::<Seq<char>, Directories>::empty().insert(
        field_name(),
        listing,
    ));
    lemma_gathered_well_formed(listing);
}

/// A file whose fields denote what a listing is stored as holds the
/// document of that listing, whatever the order of its fields, directories
/// and pairs, and however often it names one.
pub proof fn lemma_read_back(listing: Directories, back: Fields)
    requires
        denoted(back) == denoted(fields_of(listing)),
    ensures
        document_of(stored(Some(back))) == document_of(listing),
        document_of(gathered_directories(stored(Some(back)))) == document_of(listing),
{
    let fields = fields_of(listing);
    assert(fields.drop_last() =~= Seq::empty());
    assert(table_of(fields.drop_last()) =~= Map::empty());
    assert(table_of(fields) =~= Map::<Seq<char>, Directories>::empty().insert(
        field_name(),
        listing,
    ));
    assert(denoted(fields).contains_key(field_name()));
    assert(denoted(back).contains_key(field_name()));
    assert(denoted(back)[field_name()] == denoted(fields)[field_name()]);
    lemma_gathered_directories(stored(Some(back)));
}

} // verus!
