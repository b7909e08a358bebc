//! The document store: the lifecycle state machine over the open
//! documents.
//!
//! A document is created on open (only when at least one provider serves
//! its filetype), replaced wholesale on change, and removed on close. The
//! store is viewed as a map from document identity to document state; every
//! transition's contract is stated over that map.

use vstd::prelude::*;

use crate::text::str_eq;

verus! {

/// The closed set of provider variants a document can be assigned.
#[derive(Clone, Copy, Debug, PartialEq, Eq, Structural)]
pub enum ProviderKind {
    Just,
    Props,
}

/// One open document: its identity, client-supplied version, full current
/// text, and the providers assigned at open time (fixed, never re-derived).
#[derive(Debug)]
pub struct Document {
    pub uri: String,
    pub language_id: String,
    pub version: i32,
    pub contents: String,
    pub providers: Vec<ProviderKind>,
}

pub ghost struct DocumentView {
    pub uri: Seq<char>,
    pub language_id: Seq<char>,
    pub version: i32,
    pub contents: Seq<char>,
    pub providers: Seq<ProviderKind>,
}

impl View for Document {
    type V = DocumentView;

    open spec fn view(&self) -> DocumentView {
        DocumentView {
            uri: self.uri@,
            language_id: self.language_id@,
            version: self.version,
            contents: self.contents@,
            providers: self.providers@,
        }
    }
}

/// The documents as a map keyed by identity.
pub open spec fn map_of(docs: Seq<DocumentView>) -> Map<Seq<char>, DocumentView>
    decreases docs.len(),
{
    if docs.len() == 0 {
        Map::empty()
    } else {
        map_of(docs.drop_last()).insert(docs.last().uri, docs.last())
    }
}

pub open spec fn uris_unique(docs: Seq<DocumentView>) -> bool {
    forall|i: int, j: int| 0 <= i < j < docs.len() ==> docs[i].uri != docs[j].uri
}

proof fn lemma_map_of_contains(docs: Seq<DocumentView>, u: Seq<char>)
    ensures
        map_of(docs).contains_key(u) <==> exists|i: int| 0 <= i < docs.len() && docs[i].uri == u,
    decreases docs.len(),
{
    if docs.len() == 0 {
    } else {
        lemma_map_of_contains(docs.drop_last(), u);
        if docs.last().uri == u {
            assert(docs[docs.len() - 1].uri == u);
        } else if map_of(docs).contains_key(u) {
            let i = choose|i: int| 0 <= i < docs.len() - 1 && docs.drop_last()[i].uri == u;
            assert(docs[i].uri == u);
        } else {
            assert(forall|i: int|
                0 <= i < docs.len() - 1 ==> docs.drop_last()[i] == docs[i]);
        }
    }
}

proof fn lemma_map_of_index(docs: Seq<DocumentView>, i: int)
    requires
        uris_unique(docs),
        0 <= i < docs.len(),
    ensures
        map_of(docs).contains_key(docs[i].uri),
        map_of(docs)[docs[i].uri] == docs[i],
    decreases docs.len(),
{
    if i == docs.len() - 1 {
    } else {
        assert(forall|k: int| 0 <= k < docs.len() - 1 ==> docs.drop_last()[k] == docs[k]);
        lemma_map_of_index(docs.drop_last(), i);
        assert(docs[i].uri != docs.last().uri);
    }
}

proof fn lemma_map_of_update(docs: Seq<DocumentView>, i: int, d: DocumentView)
    requires
        uris_unique(docs),
        0 <= i < docs.len(),
        d.uri == docs[i].uri,
    ensures
        map_of(docs.update(i, d)) == map_of(docs).insert(d.uri, d),
    decreases docs.len(),
{
    let s2 = docs.update(i, d);
    if i == docs.len() - 1 {
        assert(s2.drop_last() =~= docs.drop_last());
        assert(s2.last() == d);
        assert(map_of(docs.drop_last()).insert(docs.last().uri, docs.last()).insert(d.uri, d)
            =~= map_of(docs.drop_last()).insert(d.uri, d));
    } else {
        assert(forall|k: int| 0 <= k < docs.len() - 1 ==> docs.drop_last()[k] == docs[k]);
        assert(s2.drop_last() =~= docs.drop_last().update(i, d));
        assert(s2.last() == docs.last());
        lemma_map_of_update(docs.drop_last(), i, d);
        assert(d.uri != docs.last().uri);
        assert(map_of(docs.drop_last()).insert(d.uri, d).insert(docs.last().uri, docs.last())
            =~= map_of(docs.drop_last()).insert(docs.last().uri, docs.last()).insert(d.uri, d));
    }
}

proof fn lemma_map_of_remove(docs: Seq<DocumentView>, i: int)
    requires
        uris_unique(docs),
        0 <= i < docs.len(),
    ensures
        map_of(docs.remove(i)) == map_of(docs).remove(docs[i].uri),
    decreases docs.len(),
{
    let u = docs[i].uri;
    if i == docs.len() - 1 {
        assert(docs.remove(i) =~= docs.drop_last());
        lemma_map_of_contains(docs.drop_last(), u);
        assert(forall|k: int| 0 <= k < docs.len() - 1 ==> docs.drop_last()[k] == docs[k]);
        assert(!map_of(docs.drop_last()).contains_key(u));
        assert(map_of(docs.drop_last()).insert(u, docs.last()).remove(u) =~= map_of(
            docs.drop_last(),
        ));
    } else {
        assert(forall|k: int| 0 <= k < docs.len() - 1 ==> docs.drop_last()[k] == docs[k]);
        assert(docs.remove(i).drop_last() =~= docs.drop_last().remove(i));
        assert(docs.remove(i).last() == docs.last());
        lemma_map_of_remove(docs.drop_last(), i);
        assert(u != docs.last().uri);
        assert(map_of(docs.drop_last()).remove(u).insert(docs.last().uri, docs.last()) =~= map_of(
            docs.drop_last(),
        ).insert(docs.last().uri, docs.last()).remove(u));
    }
}

/// The store of open documents.
pub struct DocumentStore {
    docs: Vec<Document>,
}

impl View for DocumentStore {
    type V = Map<Seq<char>, DocumentView>;

    closed spec fn view(&self) -> Map<Seq<char>, DocumentView> {
        map_of(self.docs@.map_values(|d: Document| d@))
    }
}

impl DocumentStore {
    /// Document identities are unique in the store.
    pub closed spec fn wf(&self) -> bool {
        uris_unique(self.docs@.map_values(|d: Document| d@))
    }

    pub fn new() -> (r: DocumentStore)
        ensures
            r.wf(),
            r@ == Map::<Seq<char>, DocumentView>::empty(),
    {
        DocumentStore { docs: Vec::new() }
    }

    fn find(&self, uri: &str) -> (r: Option<usize>)
        ensures
            match r {
                Some(i) => 0 <= i < self.docs@.len() && self.docs@[i as int]@.uri == uri@,
                None => forall|i: int|
                    0 <= i < self.docs@.len() ==> self.docs@[i as int]@.uri != uri@,
            },
    {
        let mut i: usize = 0;
        while i < self.docs.len()
            invariant
                0 <= i <= self.docs@.len(),
                forall|k: int| 0 <= k < i ==> self.docs@[k]@.uri != uri@,
            decreases self.docs@.len() - i,
        {
            if str_eq(self.docs[i].uri.as_str(), uri) {
                return Some(i);
            }
            i = i + 1;
        }
        None
    }

    /// Whether a document with this identity is open.
    pub fn contains(&self, uri: &str) -> (r: bool)
        requires
            self.wf(),
        ensures
            r == self@.contains_key(uri@),
    {
        let ghost dviews = self.docs@.map_values(|d: Document| d@);
        let r = self.find(uri);
        proof {
            lemma_map_of_contains(dviews, uri@);
        }
        match r {
            Some(i) => {
                proof {
                    assert(dviews[i as int].uri == uri@);
                }
                true
            },
            None => {
                proof {
                    assert(forall|k: int| 0 <= k < dviews.len() ==> dviews[k].uri != uri@);
                }
                false
            },
        }
    }

    /// The open document with this identity, if any.
    pub fn get(&self, uri: &str) -> (r: Option<&Document>)
        requires
            self.wf(),
        ensures
            match r {
                Some(d) => self@.contains_key(uri@) && d@ == self@[uri@],
                None => !self@.contains_key(uri@),
            },
    {
        let ghost dviews = self.docs@.map_values(|d: Document| d@);
        proof {
            lemma_map_of_contains(dviews, uri@);
        }
        match self.find(uri) {
            Some(i) => {
                proof {
                    lemma_map_of_index(dviews, i as int);
                }
                Some(&self.docs[i])
            },
            None => {
                proof {
                    assert(forall|k: int| 0 <= k < dviews.len() ==> dviews[k].uri != uri@);
                }
                None
            },
        }
    }

    /// The open transition. With no provider for the document's filetype no
    /// entry is created; otherwise the document is stored (replacing any
    /// previous entry of the same identity) with the provider list fixed
    /// from here on.
    pub fn open(
        &mut self,
        uri: String,
        language_id: String,
        version: i32,
        contents: String,
        providers: Vec<ProviderKind>,
    ) -> (opened: bool)
        requires
            old(self).wf(),
        ensures
            final (self).wf(),
            opened == (providers@.len() > 0),
            providers@.len() > 0 ==> final (self)@ == old(self)@.insert(
                uri@,
                DocumentView {
                    uri: uri@,
                    language_id: language_id@,
                    version,
                    contents: contents@,
                    providers: providers@,
                },
            ),
            providers@.len() == 0 ==> final (self)@ == old(self)@,
    {
        if providers.is_empty() {
            return false;
        }
        let ghost dviews = self.docs@.map_values(|d: Document| d@);
        let d = Document { uri, language_id, version, contents, providers };
        match self.find(d.uri.as_str()) {
            Some(i) => {
                proof {
                    lemma_map_of_update(dviews, i as int, d@);
                    assert(self.docs@.update(i as int, d).map_values(|x: Document| x@)
                        =~= dviews.update(i as int, d@));
                }
                let ghost dv = d@;
                let _replaced = self.docs.remove(i);
                self.docs.insert(i, d);
                proof {
                    assert(self.docs@ =~= old(self).docs@.update(i as int, d));
                    assert(self.docs@.map_values(|x: Document| x@) =~= dviews.update(
                        i as int,
                        dv,
                    ));
                    let upd = dviews.update(i as int, dv);
                    assert(dv.uri == dviews[i as int].uri);
                    assert forall|a: int, b: int|
                        0 <= a < b < upd.len() implies upd[a].uri != upd[b].uri by {
                        assert(dviews[a].uri != dviews[b].uri);
                        assert(upd[a] == if a == i { dv } else { dviews[a] });
                        assert(upd[b] == if b == i { dv } else { dviews[b] });
                    }
                    assert(uris_unique(upd));
                }
            },
            None => {
                proof {
                    assert(self.docs@.push(d).map_values(|x: Document| x@) =~= dviews.push(d@));
                    assert(dviews.push(d@).drop_last() =~= dviews);
                    assert(uris_unique(dviews.push(d@)));
                }
                self.docs.push(d);
            },
        }
        true
    }

    /// The change transition: contents and version are replaced wholesale;
    /// the provider assignment is untouched. A change for a document that
    /// is not open changes nothing.
    pub fn change(&mut self, uri: &str, version: i32, contents: String) -> (found: bool)
        requires
            old(self).wf(),
        ensures
            final (self).wf(),
            found == old(self)@.contains_key(uri@),
            found ==> final (self)@ == old(self)@.insert(
                uri@,
                DocumentView { version, contents: contents@, ..old(self)@[uri@] },
            ),
            !found ==> final (self)@ == old(self)@,
    {
        let ghost dviews = self.docs@.map_values(|d: Document| d@);
        proof {
            lemma_map_of_contains(dviews, uri@);
        }
        match self.find(uri) {
            Some(i) => {
                proof {
                    lemma_map_of_index(dviews, i as int);
                }
                let prev = self.docs.remove(i);
                let d = Document {
                    uri: prev.uri,
                    language_id: prev.language_id,
                    version,
                    contents,
                    providers: prev.providers,
                };
                proof {
                    lemma_map_of_update(dviews, i as int, d@);
                    assert(old(self).docs@.update(i as int, d).map_values(|x: Document| x@)
                        =~= dviews.update(i as int, d@));
                }
                self.docs.insert(i, d);
                proof {
                    assert(self.docs@ =~= old(self).docs@.update(i as int, d));
                }
                true
            },
            None => {
                proof {
                    assert(forall|k: int| 0 <= k < dviews.len() ==> dviews[k].uri != uri@);
                }
                false
            },
        }
    }

    /// The close transition: the entry is removed. The version the
    /// document last had is returned so the caller can publish an empty
    /// diagnostic set for it; even an untracked document owes that
    /// publish, with no version to key it to.
    pub fn close(&mut self, uri: &str) -> (r: Option<i32>)
        requires
            old(self).wf(),
        ensures
            final (self).wf(),
            final (self)@ == old(self)@.remove(uri@),
            r is Some <==> old(self)@.contains_key(uri@),
            match r {
                Some(v) => v == old(self)@[uri@].version,
                None => true,
            },
    {
        let ghost dviews = self.docs@.map_values(|d: Document| d@);
        proof {
            lemma_map_of_contains(dviews, uri@);
        }
        match self.find(uri) {
            Some(i) => {
                proof {
                    lemma_map_of_index(dviews, i as int);
                    lemma_map_of_remove(dviews, i as int);
                    assert(old(self).docs@.remove(i as int).map_values(|x: Document| x@)
                        =~= dviews.remove(i as int));
                }
                let d = self.docs.remove(i);
                proof {
                    assert(self.docs@ =~= old(self).docs@.remove(i as int));
                }
                Some(d.version)
            },
            None => {
                proof {
                    assert(forall|k: int| 0 <= k < dviews.len() ==> dviews[k].uri != uri@);
                    assert(old(self)@.remove(uri@) =~= old(self)@);
                }
                None
            },
        }
    }
}

} // verus!
