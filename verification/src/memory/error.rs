//! Errors of the memory core.
use vstd::prelude::*;
use crate::storage::error::{error_text, Error, ErrorView};

verus! {

/// An error of the memory core.
#[derive(Debug)]
pub enum IngestError {
    /// The caller's input is invalid.
    Invalid(String),
    /// The storage layer failed during a stage.
    Storage { stage: &'static str, source: Error },
    /// The embedding model failed.
    Embedding { model: String, message: String },
    /// The entity extractor failed.
    Extraction { extractor: String, message: String },
    /// The caller's time range is invalid.
    TimeRange(String),
    /// Any other unexpected condition.
    Other(String),
}

/// What an [`IngestError`] says.
pub enum IngestErrorView {
    Invalid(Seq<char>),
    Storage { stage: Seq<char>, source: ErrorView },
    Embedding { model: Seq<char>, message: Seq<char> },
    Extraction { extractor: Seq<char>, message: Seq<char> },
    TimeRange(Seq<char>),
    Other(Seq<char>),
}

impl DeepView for IngestError {
    type V = IngestErrorView;

    open spec fn deep_view(&self) -> IngestErrorView {
        match self {
            IngestError::Invalid(m) => IngestErrorView::Invalid(m@),
            IngestError::Storage { stage, source } => IngestErrorView::Storage {
                stage: stage@,
                source: source.deep_view(),
            },
            IngestError::Embedding { model, message } => IngestErrorView::Embedding {
                model: model@,
                message: message@,
            },
            IngestError::Extraction { extractor, message } => IngestErrorView::Extraction {
                extractor: extractor@,
                message: message@,
            },
            IngestError::TimeRange(m) => IngestErrorView::TimeRange(m@),
            IngestError::Other(m) => IngestErrorView::Other(m@),
        }
    }
}

/// The result of an operation of the memory core.
pub type IngestResult<T> = Result<T, IngestError>;

/// The message of an error.
pub open spec fn ingest_error_text(e: IngestErrorView) -> Seq<char> {
    match e {
        IngestErrorView::Invalid(m) => "invalid input: "@ + m,
        IngestErrorView::Storage { stage, source } => "storage error during "@ + stage + ": "@
            + error_text(source),
        IngestErrorView::Embedding { model, message } => "embedding model "@ + model + " failed: "@
            + message,
        IngestErrorView::Extraction { extractor, message } => "entity extractor "@ + extractor
            + " failed: "@ + message,
        IngestErrorView::TimeRange(m) => "invalid time range: "@ + m,
        IngestErrorView::Other(m) => "pipeline error: "@ + m,
    }
}

impl IngestError {
    /// The message of the error.
    pub fn message(&self) -> (r: String)
        ensures
            r@ == ingest_error_text(self.deep_view()),
    {
        match self {
            IngestError::Invalid(m) => "invalid input: ".to_owned().concat(m.as_str()),
            IngestError::Storage { stage, source } => {
                "storage error during ".to_owned().concat(stage).concat(": ").concat(
                    source.message().as_str(),
                )
            },
            IngestError::Embedding { model, message } => {
                "embedding model ".to_owned().concat(model.as_str()).concat(" failed: ").concat(
                    message.as_str(),
                )
            },
            IngestError::Extraction { extractor, message } => {
                "entity extractor ".to_owned().concat(extractor.as_str()).concat(
                    " failed: ",
                ).concat(message.as_str())
            },
            IngestError::TimeRange(m) => "invalid time range: ".to_owned().concat(m.as_str()),
            IngestError::Other(m) => "pipeline error: ".to_owned().concat(m.as_str()),
        }
    }
}

/// What each error says: what went wrong, and with what.
pub proof fn an_ingest_error_says_what_went_wrong(e: IngestErrorView)
    ensures
        e matches IngestErrorView::Invalid(m) ==> ingest_error_text(e) == "invalid input: "@ + m,
        e matches IngestErrorView::Storage { stage, source } ==> ingest_error_text(e)
            == "storage error during "@ + stage + ": "@ + error_text(source),
        e matches IngestErrorView::Embedding { model, message } ==> ingest_error_text(e)
            == "embedding model "@ + model + " failed: "@ + message,
        e matches IngestErrorView::Extraction { extractor, message } ==> ingest_error_text(e)
            == "entity extractor "@ + extractor + " failed: "@ + message,
        e matches IngestErrorView::TimeRange(m) ==> ingest_error_text(e) == "invalid time range: "@
            + m,
        e matches IngestErrorView::Other(m) ==> ingest_error_text(e) == "pipeline error: "@ + m,
{
}

} // verus!
