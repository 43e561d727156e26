//! The store: the document of one invocation and the operation on it.

use vstd::prelude::*;
use crate::config::{Config, ConfigView, Operation, OperationView};
use crate::document::{
    added, document_of, fields_of, gathered_directories, pairs_at, removed, scope_at, stored,
    well_formed, with_pair, without_pair, Directories, Document, DocumentMap,
};
use crate::error::Error;
use crate::json::{json_decoded, json_encoded};
use crate::scope::{Scope, ScopeMap};
use crate::table::{
    bound, distinct_keys, lemma_bound, lemma_bound_twice, lemma_other_key, lemma_slot_binds,
    lemma_slot_unique, lemma_unbound_twice, lookup, slot_of, unbound,
};

verus! {

/// The value that a document holds for a key of a directory.
pub open spec fn looked_up(document: DocumentMap, dir: Seq<char>, key: Seq<char>) -> Option<
    Seq<char>,
> {
    if scope_at(document, dir).contains_key(key) {
        Some(scope_at(document, dir)[key])
    } else {
        None
    }
}

/// What an operation answers.
#[derive(Debug)]
pub enum Reply {
    /// Every pair of the directory.
    Pairs(Scope),
    /// The value of the key, or `None` where the directory has no such key.
    Value(Option<String>),
    /// The key was set.
    Added,
    /// Whether there was a key to delete.
    Removed(bool),
}

/// A [`Reply`] with its scope as a mapping and its strings as sequences of
/// characters.
pub enum ReplyView {
    Pairs(ScopeMap),
    Value(Option<Seq<char>>),
    Added,
    Removed(bool),
}

impl View for Reply {
    type V = ReplyView;

    open spec fn view(&self) -> ReplyView {
        match self {
            Reply::Pairs(scope) => ReplyView::Pairs(scope@),
            Reply::Value(None) => ReplyView::Value(None),
            Reply::Value(Some(value)) => ReplyView::Value(Some(value@)),
            Reply::Added => ReplyView::Added,
            Reply::Removed(deleted) => ReplyView::Removed(*deleted),
        }
    }
}

/// Whether the operation that gave this reply changed the document, so that
/// the document is to be written out. Setting a key always counts as a
/// change; deleting one counts where there was a key to delete.
pub open spec fn mutates(reply: ReplyView) -> bool {
    match reply {
        ReplyView::Pairs(_) => false,
        ReplyView::Value(_) => false,
        ReplyView::Added => true,
        ReplyView::Removed(deleted) => deleted,
    }
}

/// What an operation for a directory answers on a document.
pub open spec fn answer(document: DocumentMap, dir: Seq<char>, operation: OperationView) -> ReplyView {
    match operation {
        OperationView::Print(None) => ReplyView::Pairs(scope_at(document, dir)),
        OperationView::Print(Some(key)) => ReplyView::Value(looked_up(document, dir, key)),
        OperationView::Add(_, _) => ReplyView::Added,
        OperationView::Remove(key) => ReplyView::Removed(looked_up(document, dir, key) is Some),
    }
}

/// The document that an operation for a directory leaves.
pub open spec fn document_after(
    document: DocumentMap,
    dir: Seq<char>,
    operation: OperationView,
) -> DocumentMap {
    match operation {
        OperationView::Print(_) => document,
        OperationView::Add(key, value) => added(document, dir, key, value),
        OperationView::Remove(key) => removed(document, dir, key),
    }
}

/// The listing that an operation for a directory leaves.
pub open spec fn listing_after(
    listing: Directories,
    dir: Seq<char>,
    operation: OperationView,
) -> Directories {
    match operation {
        OperationView::Print(_) => listing,
        OperationView::Add(key, value) => with_pair(listing, dir, key, value),
        OperationView::Remove(key) => without_pair(listing, dir, key),
    }
}

/// What an invocation comes to: the answer to the operation, and the text
/// to write to the stored file where the operation changed the document.
#[derive(Debug)]
pub struct Outcome {
    pub reply: Reply,
    pub save: Option<String>,
}

/// The store of one invocation: what was asked for, and the document that
/// it is asked of.
#[derive(Debug)]
pub struct Projector {
    config: Config,
    data: Document,
}

/// A [`Projector`] as its configuration and the listing of its document.
pub struct ProjectorView {
    pub config: ConfigView,
    pub listing: Directories,
}

impl ProjectorView {
    /// The document as a mapping from directories to scopes.
    pub open spec fn document(self) -> DocumentMap {
        document_of(self.listing)
    }

    /// The directory that the operation acts for.
    pub open spec fn dir(self) -> Seq<char> {
        self.config.pwd
    }
}

impl View for Projector {
    type V = ProjectorView;

    closed spec fn view(&self) -> ProjectorView {
        ProjectorView { config: self.config@, listing: self.data.listing() }
    }
}

impl Projector {
    /// Loads the store of an invocation. `contents` is the text of the
    /// stored file, or `None` where there is no file or it could not be
    /// read. Loading never fails: without a text, or with a text that is
    /// not that of a stored file, the document is empty.
    #[allow(non_snake_case)]
    pub fn FromConfig(config: Config, contents: Option<&str>) -> (projector: Self)
        ensures
            projector@.config == config@,
            projector@.listing == match contents {
                Some(text) => gathered_directories(stored(json_decoded(text@))),
                None => Directories::empty(),
            },
            projector@.document() == match contents {
                Some(text) => document_of(stored(json_decoded(text@))),
                None => DocumentMap::empty(),
            },
            contents is None ==> projector@.document() == DocumentMap::empty(),
            contents matches Some(text) ==> (json_decoded(text@) is None ==> {
                &&& projector@.listing == Directories::empty()
                &&& projector@.document() == DocumentMap::empty()
            }),
    {
        let data = match contents {
            Some(text) => Document::parse(text),
            None => Document::new(),
        };
        Projector { config, data }
    }

    /// What was asked for.
    pub fn config(&self) -> (config: &Config)
        ensures
            config@ == self@.config,
    {
        &self.config
    }

    /// The document.
    pub fn document(&self) -> (document: &Document)
        ensures
            document.listing() == self@.listing,
            document@ == self@.document(),
    {
        &self.data
    }

    /// Every pair of the directory; none where the directory has no scope.
    pub fn get_value_all(&self) -> (scope: Scope)
        ensures
            scope@ == scope_at(self@.document(), self@.dir()),
            scope.listing() == pairs_at(self@.listing, self@.dir()),
    {
        match self.data.scope(self.config.pwd.as_str()) {
            Some(scope) => scope.clone(),
            None => Scope::new(),
        }
    }

    /// The value of `key` in the directory.
    pub fn get_value(&self, key: &str) -> (found: Option<String>)
        ensures
            found.deep_view() == looked_up(self@.document(), self@.dir(), key@),
    {
        match self.data.scope(self.config.pwd.as_str()) {
            Some(scope) => match scope.get(key) {
                Some(value) => Some(value.clone()),
                None => None,
            },
            None => None,
        }
    }

    /// Sets `key` to `value` in the directory.
    pub fn set_value(&mut self, key: String, value: String)
        ensures
            final(self)@.config == old(self)@.config,
            final(self)@.listing == with_pair(old(self)@.listing, old(self)@.dir(), key@, value@),
            final(self)@.document() == added(old(self)@.document(), old(self)@.dir(), key@, value@),
    {
        self.data.set(self.config.pwd.as_str(), key, value);
    }

    /// Deletes `key` in the directory and says whether it was there.
    pub fn remove_value(&mut self, key: &str) -> (deleted: bool)
        ensures
            final(self)@.config == old(self)@.config,
            final(self)@.listing == without_pair(old(self)@.listing, old(self)@.dir(), key@),
            final(self)@.document() == removed(old(self)@.document(), old(self)@.dir(), key@),
            deleted == (looked_up(old(self)@.document(), old(self)@.dir(), key@) is Some),
    {
        self.data.unset(self.config.pwd.as_str(), key)
    }

    /// Carries out the operation that was asked for.
    pub fn apply(&mut self) -> (reply: Reply)
        ensures
            final(self)@.config == old(self)@.config,
            final(self)@.listing == listing_after(
                old(self)@.listing,
                old(self)@.dir(),
                old(self)@.config.operation,
            ),
            final(self)@.document() == document_after(
                old(self)@.document(),
                old(self)@.dir(),
                old(self)@.config.operation,
            ),
            reply@ == answer(old(self)@.document(), old(self)@.dir(), old(self)@.config.operation),
            reply matches Reply::Pairs(scope) ==> scope.listing() == pairs_at(
                old(self)@.listing,
                old(self)@.dir(),
            ),
    {
        match &self.config.operation {
            Operation::Print(None) => Reply::Pairs(self.get_value_all()),
            Operation::Print(Some(key)) => Reply::Value(self.get_value(key.as_str())),
            Operation::Add(key, value) => {
                self.data.set(self.config.pwd.as_str(), key.clone(), value.clone());
                Reply::Added
            },
            Operation::Remove(key) => {
                Reply::Removed(self.data.unset(self.config.pwd.as_str(), key.as_str()))
            },
        }
    }

    /// Carries out the operation that was asked for and, where it changed
    /// the document, makes the text to write to the stored file. An
    /// operation that changed nothing asks for nothing to be written.
    pub fn run(&mut self) -> (result: Result<Outcome, Error>)
        ensures
            final(self)@.config == old(self)@.config,
            final(self)@.listing == listing_after(
                old(self)@.listing,
                old(self)@.dir(),
                old(self)@.config.operation,
            ),
            final(self)@.document() == document_after(
                old(self)@.document(),
                old(self)@.dir(),
                old(self)@.config.operation,
            ),
            match result {
                Ok(done) => {
                    &&& done.reply@ == answer(
                        old(self)@.document(),
                        old(self)@.dir(),
                        old(self)@.config.operation,
                    )
                    &&& done.reply matches Reply::Pairs(scope) ==> scope.listing() == pairs_at(
                        old(self)@.listing,
                        old(self)@.dir(),
                    )
                    &&& match done.save {
                        Some(text) => mutates(done.reply@) && json_encoded(
                            fields_of(final(self)@.listing),
                        ) == Some(text@),
                        None => !mutates(done.reply@),
                    }
                },
                Err(error) => {
                    &&& error == Error::Persistence
                    &&& mutates(
                        answer(
                            old(self)@.document(),
                            old(self)@.dir(),
                            old(self)@.config.operation,
                        ),
                    )
                    &&& json_encoded(fields_of(final(self)@.listing)) is None
                },
            },
    {
        let reply = self.apply();
        if reply.mutated() {
            match self.serialize() {
                Ok(text) => Ok(Outcome { reply, save: Some(text) }),
                Err(error) => Err(error),
            }
        } else {
            Ok(Outcome { reply, save: None })
        }
    }

    /// The JSON text to write to the stored file.
    pub fn serialize(&self) -> (outcome: Result<String, Error>)
        ensures
            match outcome {
                Ok(text) => json_encoded(fields_of(self@.listing)) == Some(text@),
                Err(error) => json_encoded(fields_of(self@.listing)) is None
                    && error == Error::Persistence,
            },
    {
        self.data.serialize()
    }
}

impl Reply {
    /// Whether the document is to be written out after this reply.
    pub fn mutated(&self) -> (changed: bool)
        ensures
            changed == mutates(self@),
    {
        match self {
            Reply::Added => true,
            Reply::Removed(deleted) => *deleted,
            _ => false,
        }
    }
}

/// A key that was set for a directory is then printed with the value it was
/// set to.
pub proof fn lemma_add_then_print(
    document: DocumentMap,
    dir: Seq<char>,
    key: Seq<char>,
    value: Seq<char>,
)
    ensures
        answer(
            document_after(document, dir, OperationView::Add(key, value)),
            dir,
            OperationView::Print(Some(key)),
        ) == ReplyView::Value(Some(value)),
{
}

/// Deleting a key a second time changes nothing more.
pub proof fn lemma_remove_twice(document: DocumentMap, dir: Seq<char>, key: Seq<char>)
    ensures
        removed(removed(document, dir, key), dir, key) == removed(document, dir, key),
        document_after(
            document_after(document, dir, OperationView::Remove(key)),
            dir,
            OperationView::Remove(key),
        ) == document_after(document, dir, OperationView::Remove(key)),
        answer(
            document_after(document, dir, OperationView::Remove(key)),
            dir,
            OperationView::Remove(key),
        ) == ReplyView::Removed(false),
{
    let once = removed(document, dir, key);
    if document.contains_key(dir) {
        assert(once[dir].remove(key) =~= once[dir]);
        assert(removed(once, dir, key) =~= once);
    }
}

/// Deleting a key a second time leaves the listing as the first time left
/// it: no directory and no pair moves.
pub proof fn lemma_remove_twice_listing(listing: Directories, dir: Seq<char>, key: Seq<char>)
    requires
        well_formed(listing),
    ensures
        without_pair(without_pair(listing, dir, key), dir, key) == without_pair(
            listing,
            dir,
            key,
        ),
        listing_after(
            listing_after(listing, dir, OperationView::Remove(key)),
            dir,
            OperationView::Remove(key),
        ) == listing_after(listing, dir, OperationView::Remove(key)),
{
    lemma_slot_binds(listing, dir);
    if slot_of(listing, dir) is Some {
        let index = slot_of(listing, dir).unwrap();
        let pairs = pairs_at(listing, dir);
        let once = without_pair(listing, dir, key);
        lemma_bound(listing, dir, unbound(pairs, key));
        lemma_slot_unique(once, dir, index);
        lemma_unbound_twice(pairs, key);
        lemma_bound_twice(listing, dir, unbound(pairs, key), unbound(pairs, key));
    }
}

/// Deleting a key that a scope does not hold changes nothing.
pub proof fn lemma_remove_absent(document: DocumentMap, dir: Seq<char>, key: Seq<char>)
    requires
        looked_up(document, dir, key) is None,
    ensures
        removed(document, dir, key) == document,
{
    if document.contains_key(dir) {
        assert(document[dir].remove(key) =~= document[dir]);
        assert(removed(document, dir, key) =~= document);
    }
}

/// An operation for one directory leaves every other directory as it was:
/// with the scope it had, or without one.
pub proof fn lemma_other_directory_untouched(
    document: DocumentMap,
    dir: Seq<char>,
    operation: OperationView,
    other: Seq<char>,
)
    requires
        other != dir,
    ensures
        document_after(document, dir, operation).contains_key(other) == document.contains_key(other),
        document.contains_key(other) ==> document_after(document, dir, operation)[other]
            == document[other],
        forall|asked: OperationView|
            answer(document_after(document, dir, operation), other, asked) == answer(
                document,
                other,
                asked,
            ),
{
}

/// An operation for one directory leaves the pairs of every other
/// directory as they stand.
pub proof fn lemma_other_directory_listing(
    listing: Directories,
    dir: Seq<char>,
    operation: OperationView,
    other: Seq<char>,
)
    requires
        distinct_keys(listing),
        other != dir,
    ensures
        lookup(listing_after(listing, dir, operation), other) == lookup(listing, other),
        pairs_at(listing_after(listing, dir, operation), other) == pairs_at(listing, other),
{
    match operation {
        OperationView::Print(_) => {},
        OperationView::Add(key, value) => {
            lemma_other_key(listing, dir, bound(pairs_at(listing, dir), key, value), other);
        },
        OperationView::Remove(key) => {
            lemma_other_key(listing, dir, unbound(pairs_at(listing, dir), key), other);
        },
    }
}

} // verus!
