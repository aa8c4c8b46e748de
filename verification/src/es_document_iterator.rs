//! A lazy, single-pass stream of documents out of a paginated search
//! backend.
//!
//! The backend hands out page-sized batches behind an opaque cursor.  The
//! iterator opens a cursor on first use, buffers each batch, yields the
//! documents one at a time in exactly the order the backend returned them,
//! and advances the cursor whenever the buffer runs dry.  An empty batch
//! ends the stream for good; a malformed response ends it with a
//! `ProtocolError`.

use vstd::prelude::*;
use crate::json::{Value, JsonModel, model_of, models_of, entries_of, obj_lookup};
use crate::json::{lemma_models_of, lemma_entries_of};
use crate::strictify::{find_key, clone_value, lemma_lookup_first, lemma_lookup_absent};

verus! {

/// The page-size hint sent when a cursor is opened.
pub const BUFFER_FETCH_CAPACITY: usize = 100;

/// A backend response that is missing its cursor token or its batch field.
#[derive(Debug, Clone, Copy, PartialEq, Eq, Structural)]
pub enum ProtocolError {
    /// No string `_scroll_id` in the response.
    MissingScrollId,
    /// No `hits.hits` array in the response.
    MissingHits,
}

/// The two network operations of the scroll protocol.  Implementations live
/// outside the library (a real HTTP client, or a scripted fake in tests);
/// nothing is assumed about what they return.
pub trait HttpClient: Sized {
    /// Open a cursor over `index` on `host` and return the first page.
    fn new() -> Self;

    fn start_scroll(&self, host: &str, index: &str) -> Value;

    /// Advance the cursor `scroll` and return the next page.
    fn next_scroll(&self, host: &str, scroll: &str) -> Value;
}

/// The cursor token of a response: its string `_scroll_id` field.
pub open spec fn spec_scroll_id(m: JsonModel) -> Option<Seq<char>> {
    match m {
        JsonModel::Obj(ps) => match obj_lookup(ps, "_scroll_id"@) {
            Some(JsonModel::Str(s)) => Some(s),
            _ => None,
        },
        _ => None,
    }
}

/// The batch of a response: its `hits.hits` array.
pub open spec fn spec_hits(m: JsonModel) -> Option<Seq<JsonModel>> {
    match m {
        JsonModel::Obj(ps) => match obj_lookup(ps, "hits"@) {
            Some(JsonModel::Obj(hs)) => match obj_lookup(hs, "hits"@) {
                Some(JsonModel::Arr(ds)) => Some(ds),
                _ => None,
            },
            _ => None,
        },
        _ => None,
    }
}

/// A fresh copy of each element of a list.
fn clone_list(xs: &Vec<Value>) -> (r: Vec<Value>)
    ensures
        models_of(r@) == models_of(xs@),
{
    let mut out: Vec<Value> = Vec::new();
    let mut i: usize = 0;
    while i < xs.len()
        invariant
            i <= xs.len(),
            out@.len() == i as nat,
            forall|j: int| 0 <= j < i ==> model_of(out@[j]) == model_of(xs@[j]),
        decreases xs.len() - i,
    {
        out.push(clone_value(&xs[i]));
        i += 1;
    }
    proof {
        lemma_models_of(out@);
        lemma_models_of(xs@);
        assert(models_of(out@) =~= models_of(xs@));
    }
    out
}

/// Pull the cursor token and the batch out of a backend response.
fn take_scrollable(resp: &Value) -> (r: Result<(String, Vec<Value>), ProtocolError>)
    ensures
        match r {
            Ok(p) => spec_scroll_id(model_of(*resp)) == Some(p.0@) && spec_hits(model_of(*resp))
                == Some(models_of(p.1@)),
            Err(e) => {
                &&& e == ProtocolError::MissingScrollId <==> spec_scroll_id(model_of(*resp))
                    is None
                &&& e == ProtocolError::MissingHits <==> spec_scroll_id(model_of(*resp)) is Some
                    && spec_hits(model_of(*resp)) is None
            },
        },
{
    match resp {
        Value::Obj(ps) => {
            proof {
                lemma_entries_of(ps@);
            }
            let ghost es = entries_of(ps@);
            let sid: String = match find_key(ps, "_scroll_id") {
                Some(i) => {
                    proof {
                        lemma_lookup_first(es, "_scroll_id"@, i as int);
                    }
                    match &ps[i].1 {
                        Value::Str(s) => s.clone(),
                        _ => {
                            return Err(ProtocolError::MissingScrollId);
                        },
                    }
                },
                None => {
                    proof {
                        assert forall|j: int|
                            0 <= j < es.len() implies es[j].0 != "_scroll_id"@ by {}
                        lemma_lookup_absent(es, "_scroll_id"@);
                    }
                    return Err(ProtocolError::MissingScrollId);
                },
            };
            match find_key(ps, "hits") {
                Some(hi) => {
                    proof {
                        lemma_lookup_first(es, "hits"@, hi as int);
                    }
                    match &ps[hi].1 {
                        Value::Obj(hs) => {
                            proof {
                                lemma_entries_of(hs@);
                            }
                            let ghost hes = entries_of(hs@);
                            match find_key(hs, "hits") {
                                Some(di) => {
                                    proof {
                                        lemma_lookup_first(hes, "hits"@, di as int);
                                    }
                                    match &hs[di].1 {
                                        Value::Arr(ds) => Ok((sid, clone_list(ds))),
                                        _ => Err(ProtocolError::MissingHits),
                                    }
                                },
                                None => {
                                    proof {
                                        assert forall|j: int|
                                            0 <= j < hes.len() implies hes[j].0 != "hits"@ by {}
                                        lemma_lookup_absent(hes, "hits"@);
                                    }
                                    Err(ProtocolError::MissingHits)
                                },
                            }
                        },
                        _ => Err(ProtocolError::MissingHits),
                    }
                },
                None => {
                    proof {
                        assert forall|j: int| 0 <= j < es.len() implies es[j].0 != "hits"@ by {}
                        lemma_lookup_absent(es, "hits"@);
                    }
                    Err(ProtocolError::MissingHits)
                },
            }
        },
        _ => Err(ProtocolError::MissingScrollId),
    }
}

/// The lazy document stream.  `C` supplies the two network operations.
pub struct ElasticSearchDocumentIterator<C: HttpClient> {
    host: String,
    index: String,
    client: Option<C>,
    scroll: Option<String>,
    documents: Vec<Value>,
    at_end: bool,
}

impl<C: HttpClient> ElasticSearchDocumentIterator<C> {
    /// No more documents will ever come out.
    pub closed spec fn exhausted(self) -> bool {
        self.at_end
    }

    /// A cursor has been opened.
    pub closed spec fn started(self) -> bool {
        self.client is Some
    }

    /// The documents already fetched and not yet yielded, oldest first.
    pub closed spec fn buffered(self) -> Seq<JsonModel> {
        models_of(self.documents@)
    }

    /// The cursor token the next advance would use.
    pub closed spec fn cursor(self) -> Option<Seq<char>> {
        match self.scroll {
            Some(s) => Some(s@),
            None => None,
        }
    }

    /// The host and collection this stream reads.
    pub closed spec fn target(self) -> (Seq<char>, Seq<char>) {
        (self.host@, self.index@)
    }

    /// A live, started stream always holds a cursor to advance with.
    pub closed spec fn wf(self) -> bool {
        self.started() && !self.exhausted() ==> self.scroll is Some
    }

    pub fn new(host: String, index: String) -> (r: Self)
        ensures
            r.wf(),
            !r.started(),
            !r.exhausted(),
            r.buffered() == Seq::<JsonModel>::empty(),
            r.target() == (host@, index@),
    {
        let r = ElasticSearchDocumentIterator {
            host,
            index,
            client: None,
            scroll: None,
            documents: Vec::new(),
            at_end: false,
        };
        proof {
            assert(models_of(r.documents@) =~= Seq::<JsonModel>::empty());
        }
        r
    }

    /// What one network step leaves behind, whatever the backend returned:
    /// a malformed response fails and ends the stream; an empty batch ends
    /// it quietly; anything else yields the first document, buffers the
    /// rest in order, and stores the fresh cursor.
    pub open spec fn ingest_outcome(
        pre: Self,
        resp: JsonModel,
        post: Self,
        r: Result<Option<Value>, ProtocolError>,
    ) -> bool {
        match (spec_scroll_id(resp), spec_hits(resp)) {
            (Some(sid), Some(ds)) => if ds.len() == 0 {
                r == Ok::<Option<Value>, ProtocolError>(None) && post.exhausted()
            } else {
                &&& r matches Ok(Some(d)) && model_of(d) == ds[0]
                &&& post.buffered() == ds.drop_first()
                &&& post.cursor() == Some(sid)
                &&& !post.exhausted()
            },
            (None, _) => r == Err::<Option<Value>, ProtocolError>(ProtocolError::MissingScrollId)
                && post.exhausted(),
            (Some(_), None) => r == Err::<Option<Value>, ProtocolError>(ProtocolError::MissingHits)
                && post.exhausted(),
        }
    }

    /// Fold one backend response into the stream state.
    fn ingest(&mut self, resp: &Value) -> (r: Result<Option<Value>, ProtocolError>)
        requires
            !old(self).exhausted(),
        ensures
            final(self).wf(),
            final(self).started() == old(self).started(),
            final(self).target() == old(self).target(),
            Self::ingest_outcome(*old(self), model_of(*resp), *final(self), r),
    {
        match take_scrollable(resp) {
            Ok((sid, mut docs)) => {
                if docs.len() == 0 {
                    self.at_end = true;
                    Ok(None)
                } else {
                    let ghost full = docs@;
                    proof {
                        lemma_models_of(full);
                    }
                    let first = docs.remove(0);
                    self.documents = docs;
                    self.scroll = Some(sid);
                    proof {
                        lemma_models_of(self.documents@);
                        assert(models_of(self.documents@) =~= models_of(full).drop_first());
                        assert(model_of(first) == models_of(full)[0]);
                    }
                    Ok(Some(first))
                }
            },
            Err(e) => {
                self.at_end = true;
                Err(e)
            },
        }
    }

    /// Produce the next document: `Ok(Some(_))` in backend order, `Ok(None)`
    /// once the backend has no more (and forever after), or the protocol
    /// error that ended the stream.
    pub fn next(&mut self) -> (r: Result<Option<Value>, ProtocolError>)
        requires
            old(self).wf(),
        ensures
            final(self).wf(),
            final(self).target() == old(self).target(),
            r == Ok::<Option<Value>, ProtocolError>(None) ==> final(self).exhausted(),
            r matches Err(_) ==> final(self).exhausted(),
            old(self).exhausted() ==> r == Ok::<Option<Value>, ProtocolError>(None) && *final(self)
                == *old(self),
            !old(self).exhausted() && old(self).started() && old(self).buffered().len() > 0 ==> {
                &&& r matches Ok(Some(d)) && model_of(d) == old(self).buffered()[0]
                &&& final(self).buffered() == old(self).buffered().drop_first()
                &&& final(self).started()
                &&& !final(self).exhausted()
                &&& final(self).cursor() == old(self).cursor()
            },
            !old(self).exhausted() && !(old(self).started() && old(self).buffered().len() > 0)
                ==> exists|resp: JsonModel|
                #[trigger] Self::ingest_outcome(*old(self), resp, *final(self), r),
    {
        if self.at_end {
            return Ok(None);
        }
        if self.client.is_none() {
            let client = C::new();
            let resp = client.start_scroll(self.host.as_str(), self.index.as_str());
            self.client = Some(client);
            let out = self.ingest(&resp);
            proof {
                assert(Self::ingest_outcome(*old(self), model_of(resp), *self, out));
            }
            return out;
        }
        if self.documents.len() == 0 {
            let resp = match &self.client {
                Some(c) => c.next_scroll(self.host.as_str(), self.scroll.as_ref().unwrap().as_str()),
                None => {
                    proof {
                        assert(false);
                    }
                    return Ok(None);
                },
            };
            let out = self.ingest(&resp);
            proof {
                assert(Self::ingest_outcome(*old(self), model_of(resp), *self, out));
            }
            return out;
        }
        let d = self.documents.remove(0);
        proof {
            lemma_models_of(old(self).documents@);
            lemma_models_of(self.documents@);
            assert(models_of(self.documents@) =~= models_of(old(self).documents@).drop_first());
        }
        Ok(Some(d))
    }
}

} // verus!
