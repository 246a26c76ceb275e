//! The course of a recall: which layers are asked, what each is asked for, and
//! what is made of the answers.
//!
//! The caller puts the queries to the store, in whatever order, and hands back
//! what came of each.
use vstd::prelude::*;
use crate::memory::classifier::{active, active_layers};
use crate::memory::error::{ingest_error_text, IngestError, IngestErrorView, IngestResult};
use crate::memory::request::RecallRequest;
use crate::memory::response::{RecallResponse, SourceLayer};
use crate::memory::retrieval::{
    episodic_window, recall_answer, recall_from_rows, window, LayerRows, RowsView,
};
use crate::storage::error::Error;
use crate::text::{clone_opt_text, lowercase_of};
use crate::time::Timestamp;

verus! {

// --- The layers --------------------------------------------------------------

/// The layers that a recall consults: those that the caller names, else those
/// that the question is classified as, else all. Where the caller names layers
/// the question is not classified at all.
pub fn recall_layers(req: &RecallRequest, classified: Option<IngestResult<Vec<SourceLayer>>>) -> (r:
    IngestResult<Vec<SourceLayer>>)
    requires
        req.types@.len() == 0 ==> classified is Some,
    ensures
        match r {
            Ok(layers) => {
                ||| req.types@.len() > 0 && layers@ == req.types@
                ||| req.types@.len() == 0 && classified->0 is Ok && layers@ == active(
                    req.types@,
                    classified->0->Ok_0@,
                )
            },
            Err(e) => req.types@.len() == 0 && classified->0 == Err::<Vec<SourceLayer>, IngestError>(
                e,
            ),
        },
{
    let none: Vec<SourceLayer> = Vec::new();
    if req.types.len() > 0 {
        return Ok(active_layers(&req.types, &none));
    }
    match classified {
        Some(Ok(layers)) => Ok(active_layers(&req.types, &layers)),
        Some(Err(e)) => Err(e),
        None => Ok(active_layers(&req.types, &none)),
    }
}

// --- The queries -------------------------------------------------------------

/// What to ask the store for.
#[derive(Debug)]
pub enum LayerQuery {
    /// The latest episodes of an agent.
    Episodes { agent_id: String, limit: u32 },
    /// The concepts of an agent nearest to the embedding of a text.
    Concepts { agent_id: String, text: String, limit: u32 },
    /// The procedures of an agent.
    Procedures { agent_id: String, limit: u32 },
    /// The tasks of an agent that are pending at an instant.
    Tasks { agent_id: String, now: Timestamp },
    /// The preferences of an agent, or of one of its users.
    Preferences { agent_id: String, user_id: Option<String>, limit: u32 },
}

/// What a [`LayerQuery`] asks for.
pub enum LayerQueryView {
    Episodes { agent_id: Seq<char>, limit: int },
    Concepts { agent_id: Seq<char>, text: Seq<char>, limit: int },
    Procedures { agent_id: Seq<char>, limit: int },
    Tasks { agent_id: Seq<char>, now: Timestamp },
    Preferences { agent_id: Seq<char>, user_id: Option<Seq<char>>, limit: int },
}

impl DeepView for LayerQuery {
    type V = LayerQueryView;

    open spec fn deep_view(&self) -> LayerQueryView {
        match self {
            LayerQuery::Episodes { agent_id, limit } => LayerQueryView::Episodes {
                agent_id: agent_id@,
                limit: *limit as int,
            },
            LayerQuery::Concepts { agent_id, text, limit } => LayerQueryView::Concepts {
                agent_id: agent_id@,
                text: text@,
                limit: *limit as int,
            },
            LayerQuery::Procedures { agent_id, limit } => LayerQueryView::Procedures {
                agent_id: agent_id@,
                limit: *limit as int,
            },
            LayerQuery::Tasks { agent_id, now } => LayerQueryView::Tasks {
                agent_id: agent_id@,
                now: *now,
            },
            LayerQuery::Preferences { agent_id, user_id, limit } => LayerQueryView::Preferences {
                agent_id: agent_id@,
                user_id: user_id.deep_view(),
                limit: *limit as int,
            },
        }
    }
}

/// What a layer is asked for.
pub open spec fn query_of(req: RecallRequest, layer: SourceLayer, now: Timestamp) -> LayerQueryView {
    match layer {
        SourceLayer::Episodic => LayerQueryView::Episodes {
            agent_id: req.agent_id@,
            limit: window(req.max_results),
        },
        SourceLayer::Semantic => LayerQueryView::Concepts {
            agent_id: req.agent_id@,
            text: req.query@,
            limit: req.max_results as int,
        },
        SourceLayer::Procedural => LayerQueryView::Procedures {
            agent_id: req.agent_id@,
            limit: req.max_results as int,
        },
        SourceLayer::Prospective => LayerQueryView::Tasks { agent_id: req.agent_id@, now },
        SourceLayer::Preference => LayerQueryView::Preferences {
            agent_id: req.agent_id@,
            user_id: req.user_id.deep_view(),
            limit: req.max_results as int,
        },
    }
}

/// What a layer is asked for.
pub fn layer_query(req: &RecallRequest, layer: SourceLayer, now: Timestamp) -> (r: LayerQuery)
    requires
        layer == SourceLayer::Episodic ==> req.max_results * 4 <= u32::MAX,
    ensures
        r.deep_view() == query_of(*req, layer, now),
{
    let agent_id = req.agent_id.clone();
    match layer {
        SourceLayer::Episodic => LayerQuery::Episodes {
            agent_id,
            limit: episodic_window(req.max_results),
        },
        SourceLayer::Semantic => LayerQuery::Concepts {
            agent_id,
            text: req.query.clone(),
            limit: req.max_results,
        },
        SourceLayer::Procedural => LayerQuery::Procedures { agent_id, limit: req.max_results },
        SourceLayer::Prospective => LayerQuery::Tasks { agent_id, now },
        SourceLayer::Preference => LayerQuery::Preferences {
            agent_id,
            user_id: clone_opt_text(&req.user_id),
            limit: req.max_results,
        },
    }
}

/// No layer reads the memory of another agent: every query names the agent of
/// the request.
pub open spec fn asks_agent(q: LayerQueryView, agent: Seq<char>) -> bool {
    match q {
        LayerQueryView::Episodes { agent_id, limit } => agent_id == agent,
        LayerQueryView::Concepts { agent_id, text, limit } => agent_id == agent,
        LayerQueryView::Procedures { agent_id, limit } => agent_id == agent,
        LayerQueryView::Tasks { agent_id, now } => agent_id == agent,
        LayerQueryView::Preferences { agent_id, user_id, limit } => agent_id == agent,
    }
}

/// A recall asks for the memory of its own agent only.
pub proof fn recalls_stay_with_the_agent(req: RecallRequest, layer: SourceLayer, now: Timestamp)
    ensures
        asks_agent(query_of(req, layer, now), req.agent_id@),
{
}

// --- Failures ----------------------------------------------------------------

/// The stage that a layer is read in.
pub open spec fn stage_of(layer: SourceLayer) -> Seq<char> {
    match layer {
        SourceLayer::Episodic => "retrieve_episodic"@,
        SourceLayer::Semantic => "retrieve_semantic"@,
        SourceLayer::Procedural => "retrieve_procedural"@,
        SourceLayer::Prospective => "retrieve_prospective"@,
        SourceLayer::Preference => "retrieve_preference"@,
    }
}

/// The failure of the store to answer a layer's query.
pub fn layer_failure(layer: SourceLayer, source: Error) -> (r: IngestError)
    ensures
        r.deep_view() == (IngestErrorView::Storage {
            stage: stage_of(layer),
            source: source.deep_view(),
        }),
{
    let stage = match layer {
        SourceLayer::Episodic => "retrieve_episodic",
        SourceLayer::Semantic => "retrieve_semantic",
        SourceLayer::Procedural => "retrieve_procedural",
        SourceLayer::Prospective => "retrieve_prospective",
        SourceLayer::Preference => "retrieve_preference",
    };
    IngestError::Storage { stage, source }
}

/// The failure of the embedding model to embed the question.
pub fn question_failure(model: &str, e: IngestError) -> (r: IngestError)
    ensures
        r.deep_view() == (IngestErrorView::Embedding {
            model: model@,
            message: ingest_error_text(e.deep_view()),
        }),
{
    IngestError::Embedding { model: model.to_owned(), message: e.message() }
}

// --- The answer --------------------------------------------------------------

/// What came of a layer's query.
pub open spec fn outcome(r: IngestResult<LayerRows>) -> Result<RowsView, IngestErrorView> {
    match r {
        Ok(rows) => Ok(rows.deep_view()),
        Err(e) => Err(e.deep_view()),
    }
}

/// What came of the layers' queries.
pub open spec fn outcomes(results: Seq<IngestResult<LayerRows>>) -> Seq<
    Result<RowsView, IngestErrorView>,
> {
    results.map_values(|r: IngestResult<LayerRows>| outcome(r))
}

/// The rows of the layers, where none of them failed; else the first failure.
pub open spec fn gathered(results: Seq<Result<RowsView, IngestErrorView>>) -> Result<
    Seq<RowsView>,
    IngestErrorView,
>
    decreases results.len(),
{
    if results.len() == 0 {
        Ok(Seq::empty())
    } else {
        match gathered(results.drop_last()) {
            Err(e) => Err(e),
            Ok(front) => match results.last() {
                Ok(rows) => Ok(front.push(rows)),
                Err(e) => Err(e),
            },
        }
    }
}

proof fn lemma_gathered_fails(results: Seq<Result<RowsView, IngestErrorView>>, n: int)
    requires
        0 <= n <= results.len(),
        gathered(results.take(n)) is Err,
    ensures
        gathered(results) == gathered(results.take(n)),
    decreases results.len() - n,
{
    if n < results.len() {
        assert(results.take(n + 1).drop_last() == results.take(n));
        lemma_gathered_fails(results, n + 1);
    } else {
        assert(results.take(n) == results);
    }
}

/// The answer to a recall, from what came of the queries of the consulted
/// layers. The first failure, in the order of the layers, is the failure of the
/// recall.
pub fn finish_recall(
    req: &RecallRequest,
    layers: Vec<SourceLayer>,
    results: Vec<IngestResult<LayerRows>>,
    now: Timestamp,
) -> (r: IngestResult<RecallResponse>)
    ensures
        match r {
            Ok(response) => {
                &&& gathered(outcomes(results@)) is Ok
                &&& response.deep_view() == recall_answer(
                    *req,
                    lowercase_of(req.query@),
                    layers@,
                    gathered(outcomes(results@))->Ok_0,
                    now,
                )
            },
            Err(e) => gathered(outcomes(results@)) == Err::<Seq<RowsView>, IngestErrorView>(
                e.deep_view(),
            ),
        },
{
    let ghost all = results@;
    let ghost views = outcomes(all);
    let mut rest = results;
    let mut rows: Vec<LayerRows> = Vec::new();
    let ghost mut done: int = 0;
    assert(all.skip(0) == all);
    assert(views.take(0) =~= Seq::<Result<RowsView, IngestErrorView>>::empty());
    assert(rows.deep_view() =~= Seq::<RowsView>::empty());
    while rest.len() > 0
        invariant
            0 <= done <= all.len(),
            views == outcomes(all),
            all == results@,
            rest@ == all.skip(done),
            gathered(views.take(done)) == Ok::<Seq<RowsView>, IngestErrorView>(rows.deep_view()),
        decreases rest@.len(),
    {
        let next = rest.remove(0);
        assert(rest@ == all.skip(done + 1));
        assert(next == all[done]);
        assert(views.take(done + 1).drop_last() == views.take(done));
        assert(views.take(done + 1).last() == outcome(next));
        match next {
            Ok(found) => {
                let ghost before = rows.deep_view();
                rows.push(found);
                assert(rows.deep_view() =~= before.push(found.deep_view()));
            },
            Err(e) => {
                proof {
                    lemma_gathered_fails(views, done + 1);
                }
                return Err(e);
            },
        }
        proof {
            done = done + 1;
        }
    }
    assert(views.take(done) == views);
    Ok(recall_from_rows(req, layers, &rows, now))
}

/// A recall answers exactly where every layer that it consults does.
pub proof fn one_failure_fails_the_recall(results: Seq<Result<RowsView, IngestErrorView>>)
    ensures
        gathered(results) is Ok <==> forall|i: int|
            0 <= i < results.len() ==> (#[trigger] results[i]) is Ok,
        gathered(results) is Ok ==> gathered(results)->Ok_0.len() == results.len(),
    decreases results.len(),
{
    if results.len() > 0 {
        let front = results.drop_last();
        one_failure_fails_the_recall(front);
        if gathered(results) is Ok {
            assert forall|i: int| 0 <= i < results.len() implies (#[trigger] results[i]) is Ok by {
                if i < front.len() {
                    assert(front[i] is Ok);
                }
            }
        }
        if forall|i: int| 0 <= i < results.len() ==> (#[trigger] results[i]) is Ok {
            assert forall|i: int| 0 <= i < front.len() implies (#[trigger] front[i]) is Ok by {
                assert(results[i] is Ok);
            }
            assert(results[results.len() - 1] is Ok);
        }
    }
}

/// What each layer is asked for: the latest episodes, more of them than the
/// request wants; the concepts nearest to the question, the procedures, and the
/// preferences of the request's user, as many as it wants; and the tasks that are
/// pending now. All of them are those of the request's agent.
pub proof fn each_layer_is_asked_for_its_own(req: RecallRequest, now: Timestamp)
    ensures
        query_of(req, SourceLayer::Episodic, now) == (LayerQueryView::Episodes {
            agent_id: req.agent_id@,
            limit: if req.max_results < 5 {
                20
            } else {
                4 * req.max_results
            },
        }),
        query_of(req, SourceLayer::Semantic, now) == (LayerQueryView::Concepts {
            agent_id: req.agent_id@,
            text: req.query@,
            limit: req.max_results as int,
        }),
        query_of(req, SourceLayer::Procedural, now) == (LayerQueryView::Procedures {
            agent_id: req.agent_id@,
            limit: req.max_results as int,
        }),
        query_of(req, SourceLayer::Prospective, now) == (LayerQueryView::Tasks {
            agent_id: req.agent_id@,
            now,
        }),
        query_of(req, SourceLayer::Preference, now) == (LayerQueryView::Preferences {
            agent_id: req.agent_id@,
            user_id: match req.user_id {
                Some(u) => Some(u@),
                None => None,
            },
            limit: req.max_results as int,
        }),
{
}

/// The rows of a recall are those of its layers, one by one; where a layer failed,
/// the failure of the recall is that of the first layer that did.
pub proof fn the_rows_of_each_layer_are_kept(results: Seq<Result<RowsView, IngestErrorView>>)
    ensures
        match gathered(results) {
            Ok(rows) => {
                &&& rows.len() == results.len()
                &&& forall|i: int|
                    0 <= i < results.len() ==> #[trigger] results[i] == Ok::<
                        RowsView,
                        IngestErrorView,
                    >(rows[i])
            },
            Err(e) => exists|i: int|
                {
                    &&& 0 <= i < results.len()
                    &&& #[trigger] results[i] == Err::<RowsView, IngestErrorView>(e)
                    &&& forall|j: int| 0 <= j < i ==> (#[trigger] results[j]) is Ok
                },
        },
    decreases results.len(),
{
    if results.len() > 0 {
        let front = results.drop_last();
        the_rows_of_each_layer_are_kept(front);
        match gathered(front) {
            Err(e) => {
                let i = choose|i: int|
                    {
                        &&& 0 <= i < front.len()
                        &&& #[trigger] front[i] == Err::<RowsView, IngestErrorView>(e)
                        &&& forall|j: int| 0 <= j < i ==> (#[trigger] front[j]) is Ok
                    };
                assert(results[i] == front[i]);
                assert forall|j: int| 0 <= j < i implies (#[trigger] results[j]) is Ok by {
                    assert(front[j] == results[j]);
                }
            },
            Ok(rows) => {
                assert forall|i: int| 0 <= i < front.len() implies #[trigger] results[i] == Ok::<
                    RowsView,
                    IngestErrorView,
                >(rows[i]) by {
                    assert(front[i] == results[i]);
                }
                assert(results[results.len() - 1] == results.last());
            },
        }
    }
}

/// A failure names the stage of its layer.
pub proof fn a_failure_names_its_layer(layer: SourceLayer)
    ensures
        layer == SourceLayer::Episodic ==> stage_of(layer) == "retrieve_episodic"@,
        layer == SourceLayer::Semantic ==> stage_of(layer) == "retrieve_semantic"@,
        layer == SourceLayer::Procedural ==> stage_of(layer) == "retrieve_procedural"@,
        layer == SourceLayer::Prospective ==> stage_of(layer) == "retrieve_prospective"@,
        layer == SourceLayer::Preference ==> stage_of(layer) == "retrieve_preference"@,
{
}

} // verus!
