//! The providers: a closed set of variants behind one capability
//! interface, and the aggregator that owns them together with the open
//! documents.

use vstd::prelude::*;

use crate::caps::{merge_all, opt_view, spec_merge_all, CapabilitySet, CapabilitySetView};
use crate::diag::{Diagnostic, DiagnosticView, Position};
use crate::handlers::props::spec_hover;
use crate::store::{DocumentStore, DocumentView, ProviderKind};

pub mod just;
pub mod props;

pub use just::Just;
pub use props::PropsHandler;

verus! {

/// A provider-level failure.
#[derive(Debug)]
pub enum HandlerError {
    /// A failure that is worth an operator's log entry: the external tool
    /// could not be invoked, or its output was not text.
    Log(String),
    /// A request named a document with no open entry.
    NoSuchDocument { uri: String },
}

pub ghost enum HandlerErrorView {
    Log(Seq<char>),
    NoSuchDocument(Seq<char>),
}

impl View for HandlerError {
    type V = HandlerErrorView;

    open spec fn view(&self) -> HandlerErrorView {
        match self {
            HandlerError::Log(s) => HandlerErrorView::Log(s@),
            HandlerError::NoSuchDocument { uri } => HandlerErrorView::NoSuchDocument(uri@),
        }
    }
}

impl HandlerError {
    /// The failure as text, for the log channel or a request error.
    pub fn message(&self) -> (r: String)
        ensures
            match self@ {
                HandlerErrorView::Log(s) => r@ == s,
                HandlerErrorView::NoSuchDocument(u) => r@ == "No such document: "@ + u,
            },
    {
        match self {
            HandlerError::Log(s) => s.clone(),
            HandlerError::NoSuchDocument { uri } => {
                let mut r = "No such document: ".to_owned();
                r.append(uri.as_str());
                r
            },
        }
    }
}

/// The capability interface every provider variant implements.
pub trait Handler {
    /// Which filetype tags the provider serves.
    spec fn spec_supports(&self, filetype: Seq<char>) -> bool;

    /// The capability slots the provider advertises.
    spec fn spec_capabilities(&self) -> CapabilitySetView;

    fn filetype_supported(&self, filetype: &str) -> (r: bool)
        ensures
            r == self.spec_supports(filetype@),
    ;

    fn get_capabilities(&self) -> (r: CapabilitySet)
        ensures
            r@ == self.spec_capabilities(),
    ;
}

/// The closed set of provider variants.
#[derive(Debug)]
pub enum AllHandlers {
    Just(Just),
    Props(PropsHandler),
}

impl AllHandlers {
    pub open spec fn spec_kind(&self) -> ProviderKind {
        match self {
            AllHandlers::Just(_) => ProviderKind::Just,
            AllHandlers::Props(_) => ProviderKind::Props,
        }
    }

    pub fn kind(&self) -> (r: ProviderKind)
        ensures
            r == self.spec_kind(),
    {
        match self {
            AllHandlers::Just(_) => ProviderKind::Just,
            AllHandlers::Props(_) => ProviderKind::Props,
        }
    }
}

impl Handler for AllHandlers {
    open spec fn spec_supports(&self, filetype: Seq<char>) -> bool {
        match self {
            AllHandlers::Just(h) => h.spec_supports(filetype),
            AllHandlers::Props(h) => h.spec_supports(filetype),
        }
    }

    open spec fn spec_capabilities(&self) -> CapabilitySetView {
        match self {
            AllHandlers::Just(h) => h.spec_capabilities(),
            AllHandlers::Props(h) => h.spec_capabilities(),
        }
    }

    fn filetype_supported(&self, filetype: &str) -> (r: bool)
        ensures
            r == self.spec_supports(filetype@),
    {
        match self {
            AllHandlers::Just(h) => h.filetype_supported(filetype),
            AllHandlers::Props(h) => h.filetype_supported(filetype),
        }
    }

    fn get_capabilities(&self) -> (r: CapabilitySet)
        ensures
            r@ == self.spec_capabilities(),
    {
        match self {
            AllHandlers::Just(h) => h.get_capabilities(),
            AllHandlers::Props(h) => h.get_capabilities(),
        }
    }
}

/// What one provider's diagnostics pass came to: a list (possibly empty),
/// or a failure.
#[derive(Debug)]
pub enum ProviderOutcome {
    Produced(Vec<Diagnostic>),
    Failed(HandlerError),
}

pub ghost enum ProviderOutcomeView {
    Produced(Seq<DiagnosticView>),
    Failed(HandlerErrorView),
}

impl View for ProviderOutcome {
    type V = ProviderOutcomeView;

    open spec fn view(&self) -> ProviderOutcomeView {
        match self {
            ProviderOutcome::Produced(ds) => ProviderOutcomeView::Produced(
                ds@.map_values(|d: Diagnostic| d@),
            ),
            ProviderOutcome::Failed(e) => ProviderOutcomeView::Failed(e@),
        }
    }
}

/// Whether any provider succeeded (an empty list is a success).
pub open spec fn any_ok(rs: Seq<ProviderOutcomeView>) -> bool {
    exists|i: int| 0 <= i < rs.len() && rs[i] is Produced
}

/// The concatenation, in provider order, of every successful provider's
/// diagnostics.
pub open spec fn oks_concat(rs: Seq<ProviderOutcomeView>) -> Seq<DiagnosticView>
    decreases rs.len(),
{
    if rs.len() == 0 {
        Seq::empty()
    } else {
        (match rs[0] {
            ProviderOutcomeView::Produced(ds) => ds,
            ProviderOutcomeView::Failed(_) => Seq::empty(),
        }) + oks_concat(rs.skip(1))
    }
}

/// The error of the last failed provider.
pub open spec fn last_failure(rs: Seq<ProviderOutcomeView>) -> HandlerErrorView
    decreases rs.len(),
{
    if rs.len() == 0 {
        HandlerErrorView::Log(Seq::empty())
    } else {
        match rs.last() {
            ProviderOutcomeView::Failed(e) => e,
            ProviderOutcomeView::Produced(_) => last_failure(rs.drop_last()),
        }
    }
}

proof fn lemma_oks_concat_push(rs: Seq<ProviderOutcomeView>, x: ProviderOutcomeView)
    ensures
        oks_concat(rs.push(x)) =~= oks_concat(rs) + (match x {
            ProviderOutcomeView::Produced(ds) => ds,
            ProviderOutcomeView::Failed(_) => Seq::empty(),
        }),
    decreases rs.len(),
{
    let tail_part = (match x {
        ProviderOutcomeView::Produced(ds) => ds,
        ProviderOutcomeView::Failed(_) => Seq::<DiagnosticView>::empty(),
    });
    if rs.len() == 0 {
        assert(rs.push(x)[0] == x);
        assert(rs.push(x).skip(1) =~= Seq::<ProviderOutcomeView>::empty());
        assert(rs.push(x).len() == 1);
        assert(oks_concat(rs.push(x).skip(1)) =~= Seq::<DiagnosticView>::empty());
        match x {
            ProviderOutcomeView::Produced(ds) => {
                assert(oks_concat(rs.push(x)) == ds + oks_concat(rs.push(x).skip(1)));
                assert(oks_concat(rs.push(x)) =~= ds);
            },
            ProviderOutcomeView::Failed(_) => {
                assert(oks_concat(rs.push(x)) == Seq::<DiagnosticView>::empty() + oks_concat(
                    rs.push(x).skip(1),
                ));
                assert(oks_concat(rs.push(x)) =~= Seq::<DiagnosticView>::empty());
            },
        }
        assert(oks_concat(rs) + tail_part =~= tail_part);
    } else {
        assert(rs.push(x)[0] == rs[0]);
        assert(rs.push(x).skip(1) =~= rs.skip(1).push(x));
        lemma_oks_concat_push(rs.skip(1), x);
        assert(oks_concat(rs.push(x)) =~= (match rs[0] {
            ProviderOutcomeView::Produced(ds) => ds,
            ProviderOutcomeView::Failed(_) => Seq::<DiagnosticView>::empty(),
        }) + (oks_concat(rs.skip(1)) + tail_part));
    }
}

/// The aggregation policy over one diagnostics pass: if at least one
/// provider succeeded, the result is the concatenation of every successful
/// list, in provider order, failures dropped to the log; if every provider
/// failed, the last failure is the result's error; with no providers at
/// all the result is an empty list.
pub fn aggregate_diagnostics(outcomes: Vec<ProviderOutcome>) -> (r: Result<
    Vec<Diagnostic>,
    HandlerError,
>)
    ensures
        ({
            let rs = outcomes@.map_values(|o: ProviderOutcome| o@);
            match r {
                Ok(ds) => (any_ok(rs) || rs.len() == 0) && ds@.map_values(|d: Diagnostic| d@)
                    == oks_concat(rs),
                Err(e) => !any_ok(rs) && rs.len() > 0 && e@ == last_failure(rs),
            }
        }),
{
    let ghost rs = outcomes@.map_values(|o: ProviderOutcome| o@);
    let mut rest = outcomes;
    let mut diags: Vec<Diagnostic> = Vec::new();
    let mut last_err: Option<HandlerError> = None;
    let mut found_ok = false;
    proof {
        assert(rest@.map_values(|o: ProviderOutcome| o@) =~= rs.skip(0));
        assert(rs.take(0) =~= Seq::<ProviderOutcomeView>::empty());
        assert(diags@.map_values(|d: Diagnostic| d@) =~= Seq::<DiagnosticView>::empty());
    }
    while rest.len() > 0
        invariant
            rs == outcomes@.map_values(|o: ProviderOutcome| o@),
            rest@.len() <= rs.len(),
            ({
                let i = rs.len() - rest@.len();
                &&& rest@.map_values(|o: ProviderOutcome| o@) =~= rs.skip(i)
                &&& found_ok == any_ok(rs.take(i))
                &&& diags@.map_values(|d: Diagnostic| d@) =~= oks_concat(rs.take(i))
                &&& ((exists|j: int| 0 <= j < i && rs[j] is Failed) <==> last_err is Some)
                &&& match last_err {
                    Some(e) => e@ == last_failure(rs.take(i)),
                    None => true,
                }
            }),
        decreases rest.len(),
    {
        let ghost i: int = rs.len() - rest@.len();
        proof {
            assert(rs.skip(i)[0] == rs[i]);
            assert(rs.take(i).push(rs[i]) =~= rs.take(i + 1));
            assert(rs.take(i + 1).drop_last() =~= rs.take(i));
            lemma_oks_concat_push(rs.take(i), rs[i]);
        }
        let ghost prev = rest@;
        let o = rest.remove(0);
        proof {
            assert(o@ == rs[i]);
            assert(rest@ =~= prev.skip(1));
            assert(prev.skip(1).map_values(|x: ProviderOutcome| x@) =~= prev.map_values(
                |x: ProviderOutcome| x@,
            ).skip(1));
            assert(rest@.map_values(|x: ProviderOutcome| x@) =~= rs.skip(i + 1));
            assert(rs.len() - rest@.len() == i + 1);
        }
        match o {
            ProviderOutcome::Produced(mut ds) => {
                proof {
                    assert((diags@ + ds@).map_values(|d: Diagnostic| d@) =~= diags@.map_values(
                        |d: Diagnostic| d@,
                    ) + ds@.map_values(|d: Diagnostic| d@));
                }
                diags.append(&mut ds);
                found_ok = true;
            },
            ProviderOutcome::Failed(e) => {
                last_err = Some(e);
            },
        }
    }
    proof {
        assert(rs.take(rs.len() as int) =~= rs);
    }
    if found_ok {
        Ok(diags)
    } else {
        match last_err {
            Some(e) => Err(e),
            None => {
                proof {
                    assert(rs.len() == 0);
                }
                Ok(diags)
            },
        }
    }
}

/// The eligible providers for a filetype, in registration order.
pub open spec fn spec_providers_for(handlers: Seq<AllHandlers>, ft: Seq<char>) -> Seq<
    ProviderKind,
>
    decreases handlers.len(),
{
    if handlers.len() == 0 {
        Seq::empty()
    } else {
        (if handlers[0].spec_supports(ft) {
            seq![handlers[0].spec_kind()]
        } else {
            Seq::empty()
        }) + spec_providers_for(handlers.skip(1), ft)
    }
}

/// The first registered definition provider, if any.
pub open spec fn spec_first_props(handlers: Seq<AllHandlers>) -> Option<PropsHandler>
    decreases handlers.len(),
{
    if handlers.len() == 0 {
        None
    } else {
        match handlers[0] {
            AllHandlers::Props(p) => Some(p),
            AllHandlers::Just(_) => spec_first_props(handlers.skip(1)),
        }
    }
}

/// The capability set the session advertises: the providers' sets merged
/// in registration order, first value per slot winning, and then the two
/// process-wide invariants forced whatever any provider offered — the
/// position encoding is UTF-16 and document synchronization is whole-text
/// replacement, which is exactly what the change transition implements.
pub open spec fn spec_session_caps(handlers: Seq<AllHandlers>) -> CapabilitySetView {
    let merged = spec_merge_all(handlers.map_values(|h: AllHandlers| h.spec_capabilities()));
    CapabilitySetView {
        position_encoding: Some("utf-16"@),
        text_document_sync: Some("full"@),
        hover_provider: merged.hover_provider,
        completion_provider: merged.completion_provider,
        diagnostic_provider: merged.diagnostic_provider,
    }
}

/// What a diagnostics pass runs against: the document state snapshotted
/// under the lock, to be handed to the providers outside it.
#[derive(Debug)]
pub struct DiagnosticsJob {
    pub version: i32,
    pub contents: String,
    pub providers: Vec<ProviderKind>,
}

fn clone_kinds(v: &Vec<ProviderKind>) -> (r: Vec<ProviderKind>)
    ensures
        r@ == v@,
{
    let mut r: Vec<ProviderKind> = Vec::new();
    let mut i: usize = 0;
    while i < v.len()
        invariant
            0 <= i <= v@.len(),
            r@ =~= v@.take(i as int),
        decreases v@.len() - i,
    {
        proof {
            assert(v@.take(i + 1) =~= v@.take(i as int).push(v@[i as int]));
        }
        r.push(v[i]);
        i = i + 1;
    }
    proof {
        assert(v@.take(v@.len() as int) =~= v@);
    }
    r
}

/// The aggregator: the registered providers, in probe order, and the open
/// documents.
pub struct AnyHandler {
    handlers: Vec<AllHandlers>,
    documents: DocumentStore,
}

impl AnyHandler {
    pub closed spec fn handlers_seq(&self) -> Seq<AllHandlers> {
        self.handlers@
    }

    pub closed spec fn documents_map(&self) -> Map<Seq<char>, DocumentView> {
        self.documents@
    }

    pub closed spec fn wf(&self) -> bool {
        self.documents.wf()
    }

    /// An aggregator with no providers and no open documents. Providers
    /// are probed once, at startup, and registered in probe order.
    pub fn new() -> (r: AnyHandler)
        ensures
            r.wf(),
            r.handlers_seq().len() == 0,
            r.documents_map() == Map::<Seq<char>, DocumentView>::empty(),
    {
        AnyHandler { handlers: Vec::new(), documents: DocumentStore::new() }
    }

    /// Registers a provider. Registration order decides capability
    /// precedence and provider order in every later dispatch.
    pub fn register(&mut self, h: AllHandlers)
        requires
            old(self).wf(),
        ensures
            final (self).wf(),
            final (self).handlers_seq() == old(self).handlers_seq().push(h),
            final (self).documents_map() == old(self).documents_map(),
    {
        self.handlers.push(h);
    }

    /// The merged capability set the session advertises.
    pub fn get_capabilities(&self) -> (r: CapabilitySet)
        ensures
            r@ == spec_session_caps(self.handlers_seq()),
    {
        let mut sets: Vec<CapabilitySet> = Vec::new();
        let mut i: usize = 0;
        proof {
            assert(sets@.map_values(|s: CapabilitySet| s@) =~= self.handlers@.take(
                0,
            ).map_values(|h: AllHandlers| h.spec_capabilities()));
        }
        while i < self.handlers.len()
            invariant
                0 <= i <= self.handlers@.len(),
                sets@.map_values(|s: CapabilitySet| s@) =~= self.handlers@.take(i as int).map_values(
                    |h: AllHandlers| h.spec_capabilities(),
                ),
            decreases self.handlers@.len() - i,
        {
            let c = self.handlers[i].get_capabilities();
            proof {
                assert((sets@.push(c)).map_values(|s: CapabilitySet| s@) =~= sets@.map_values(
                    |s: CapabilitySet| s@,
                ) + seq![c@]);
                assert(self.handlers@.take(i + 1).map_values(|h: AllHandlers| h.spec_capabilities())
                    =~= self.handlers@.take(i as int).map_values(
                    |h: AllHandlers| h.spec_capabilities(),
                ) + seq![self.handlers@[i as int].spec_capabilities()]);
            }
            sets.push(c);
            i = i + 1;
        }
        proof {
            assert(self.handlers@.take(self.handlers@.len() as int) =~= self.handlers@);
        }
        let merged = merge_all(&sets);
        CapabilitySet {
            position_encoding: Some("utf-16".to_owned()),
            text_document_sync: Some("full".to_owned()),
            hover_provider: merged.hover_provider,
            completion_provider: merged.completion_provider,
            diagnostic_provider: merged.diagnostic_provider,
        }
    }

    /// The providers eligible for a filetype, in registration order: a
    /// provider with no filetype restriction is eligible for every
    /// document.
    pub fn providers_for(&self, filetype: &str) -> (r: Vec<ProviderKind>)
        ensures
            r@ == spec_providers_for(self.handlers_seq(), filetype@),
    {
        let mut r: Vec<ProviderKind> = Vec::new();
        let mut i: usize = 0;
        proof {
            assert(self.handlers@.skip(0) =~= self.handlers@);
            assert(r@ =~= Seq::<ProviderKind>::empty());
        }
        while i < self.handlers.len()
            invariant
                0 <= i <= self.handlers@.len(),
                spec_providers_for(self.handlers@, filetype@) =~= r@ + spec_providers_for(
                    self.handlers@.skip(i as int),
                    filetype@,
                ),
            decreases self.handlers@.len() - i,
        {
            proof {
                assert(self.handlers@.skip(i as int)[0] == self.handlers@[i as int]);
                assert(self.handlers@.skip(i as int).skip(1) =~= self.handlers@.skip(i + 1));
            }
            let h = &self.handlers[i];
            if h.filetype_supported(filetype) {
                r.push(h.kind());
            }
            i = i + 1;
        }
        proof {
            assert(spec_providers_for(self.handlers@.skip(i as int), filetype@).len() == 0);
            assert(spec_providers_for(self.handlers@, filetype@) =~= r@);
        }
        r
    }

    /// The open transition: resolves the eligible providers once and, when
    /// there is at least one, creates the document with that list fixed.
    /// With none, no entry is created; the caller logs a notice and owes
    /// the transport nothing further.
    pub fn open_document(
        &mut self,
        uri: String,
        language_id: String,
        version: i32,
        contents: String,
    ) -> (opened: bool)
        requires
            old(self).wf(),
        ensures
            final (self).wf(),
            final (self).handlers_seq() == old(self).handlers_seq(),
            opened == (spec_providers_for(old(self).handlers_seq(), language_id@).len() > 0),
            opened ==> final (self).documents_map() == old(self).documents_map().insert(
                uri@,
                DocumentView {
                    uri: uri@,
                    language_id: language_id@,
                    version,
                    contents: contents@,
                    providers: spec_providers_for(old(self).handlers_seq(), language_id@),
                },
            ),
            !opened ==> final (self).documents_map() == old(self).documents_map(),
    {
        let providers = self.providers_for(language_id.as_str());
        self.documents.open(uri, language_id, version, contents, providers)
    }

    /// The change transition: wholesale replacement of contents and
    /// version, as the advertised synchronization mode promises.
    pub fn change_document(&mut self, uri: &str, version: i32, contents: String) -> (found: bool)
        requires
            old(self).wf(),
        ensures
            final (self).wf(),
            final (self).handlers_seq() == old(self).handlers_seq(),
            found == old(self).documents_map().contains_key(uri@),
            found ==> final (self).documents_map() == old(self).documents_map().insert(
                uri@,
                DocumentView { version, contents: contents@, ..old(self).documents_map()[uri@] },
            ),
            !found ==> final (self).documents_map() == old(self).documents_map(),
    {
        self.documents.change(uri, version, contents)
    }

    /// The close transition: the entry is removed and the last known
    /// version returned, so the caller can publish the empty diagnostic
    /// set that every close owes the client.
    pub fn close_document(&mut self, uri: &str) -> (r: Option<i32>)
        requires
            old(self).wf(),
        ensures
            final (self).wf(),
            final (self).handlers_seq() == old(self).handlers_seq(),
            final (self).documents_map() == old(self).documents_map().remove(uri@),
            r is Some <==> old(self).documents_map().contains_key(uri@),
            match r {
                Some(v) => v == old(self).documents_map()[uri@].version,
                None => true,
            },
    {
        self.documents.close(uri)
    }

    /// Snapshots what a diagnostics pass needs: the document's version,
    /// contents and assigned providers. A request for a document with no
    /// open entry is the requester's error, `NoSuchDocument`.
    pub fn diagnostics_snapshot(&self, uri: &str) -> (r: Result<DiagnosticsJob, HandlerError>)
        requires
            self.wf(),
        ensures
            match r {
                Ok(job) => self.documents_map().contains_key(uri@) && job.version
                    == self.documents_map()[uri@].version && job.contents@
                    == self.documents_map()[uri@].contents && job.providers@
                    == self.documents_map()[uri@].providers,
                Err(e) => !self.documents_map().contains_key(uri@) && e@
                    == HandlerErrorView::NoSuchDocument(uri@),
            },
    {
        match self.documents.get(uri) {
            Some(d) => Ok(
                DiagnosticsJob {
                    version: d.version,
                    contents: d.contents.clone(),
                    providers: clone_kinds(&d.providers),
                },
            ),
            None => Err(HandlerError::NoSuchDocument { uri: uri.to_owned() }),
        }
    }

    /// Whether a result computed against this version is still current:
    /// stale results (the document closed, or edited since) are discarded,
    /// never published.
    pub fn should_publish(&self, uri: &str, version: i32) -> (r: bool)
        requires
            self.wf(),
        ensures
            r == (self.documents_map().contains_key(uri@) && self.documents_map()[uri@].version
                == version),
    {
        match self.documents.get(uri) {
            Some(d) => d.version == version,
            None => false,
        }
    }

    /// Finishes a diagnostics pass for a document: a request against a
    /// document with no entry is `NoSuchDocument`; otherwise the
    /// providers' outcomes aggregate as `aggregate_diagnostics` says.
    pub fn update_diagnostics(&self, uri: &str, outcomes: Vec<ProviderOutcome>) -> (r: Result<
        Vec<Diagnostic>,
        HandlerError,
    >)
        requires
            self.wf(),
        ensures
            ({
                let rs = outcomes@.map_values(|o: ProviderOutcome| o@);
                match r {
                    Ok(ds) => self.documents_map().contains_key(uri@) && (any_ok(rs) || rs.len()
                        == 0) && ds@.map_values(|d: Diagnostic| d@) == oks_concat(rs),
                    Err(e) => (!self.documents_map().contains_key(uri@) && e@
                        == HandlerErrorView::NoSuchDocument(uri@)) || (self.documents_map(
                    ).contains_key(uri@) && !any_ok(rs) && rs.len() > 0 && e@ == last_failure(rs)),
                }
            }),
    {
        if !self.documents.contains(uri) {
            return Err(HandlerError::NoSuchDocument { uri: uri.to_owned() });
        }
        aggregate_diagnostics(outcomes)
    }

    /// Routes a hover request to the definition provider: the request
    /// fails only for a document with no entry; a document whose provider
    /// list has no definition provider, or a session without one, hovers
    /// to nothing.
    pub fn hover(&self, uri: &str, position: Position) -> (r: Result<
        Option<String>,
        HandlerError,
    >)
        requires
            self.wf(),
        ensures
            r is Err <==> !self.documents_map().contains_key(uri@),
            match r {
                Ok(o) => ({
                    let doc = self.documents_map()[uri@];
                    if doc.providers.contains(ProviderKind::Props) && spec_first_props(
                        self.handlers_seq(),
                    ) is Some {
                        opt_view(o) == spec_hover(
                            spec_first_props(self.handlers_seq()).unwrap()@.definitions,
                            doc.contents,
                            position.line as nat,
                            position.character as nat,
                        )
                    } else {
                        o is None
                    }
                }),
                Err(e) => e@ == HandlerErrorView::NoSuchDocument(uri@),
            },
    {
        let doc = match self.documents.get(uri) {
            Some(d) => d,
            None => {
                return Err(HandlerError::NoSuchDocument { uri: uri.to_owned() });
            },
        };
        let mut has_props = false;
        let mut k: usize = 0;
        while k < doc.providers.len()
            invariant
                0 <= k <= doc.providers@.len(),
                has_props == exists|t: int|
                    0 <= t < k && doc.providers@[t] == ProviderKind::Props,
            decreases doc.providers@.len() - k,
        {
            if matches!(doc.providers[k], ProviderKind::Props) {
                has_props = true;
                proof {
                    assert(doc.providers@[k as int] == ProviderKind::Props);
                }
            }
            k = k + 1;
        }
        if !has_props {
            proof {
                assert(!doc.providers@.contains(ProviderKind::Props));
            }
            return Ok(None);
        }
        proof {
            assert(doc.providers@.contains(ProviderKind::Props));
            assert(self.handlers@.skip(0) =~= self.handlers@);
        }
        let mut i: usize = 0;
        while i < self.handlers.len()
            invariant
                self.wf(),
                self.documents_map().contains_key(uri@),
                doc@ == self.documents_map()[uri@],
                doc.providers@.contains(ProviderKind::Props),
                0 <= i <= self.handlers@.len(),
                spec_first_props(self.handlers@) == spec_first_props(
                    self.handlers@.skip(i as int),
                ),
            decreases self.handlers@.len() - i,
        {
            proof {
                assert(self.handlers@.skip(i as int)[0] == self.handlers@[i as int]);
                assert(self.handlers@.skip(i as int).skip(1) =~= self.handlers@.skip(i + 1));
            }
            if let AllHandlers::Props(p) = &self.handlers[i] {
                return p.hover(doc.contents.as_str(), position);
            }
            i = i + 1;
        }
        proof {
            assert(self.handlers@.skip(i as int).len() == 0);
        }
        Ok(None)
    }
}

} // verus!
