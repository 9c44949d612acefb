use vstd::prelude::*;
use crate::resolver::{
    answers_of, records_view, resolution, resolve_query, AnswerRecord, Query, RecordView,
    Resolution, ResolutionView, ServerConfig,
};

verus! {

/// A condition that the operator should hear of, though the client only
/// sees an empty answer.
#[derive(Clone, Copy, Debug, PartialEq, Eq, Structural)]
pub enum Warning {
    /// Both encoded addresses were the same and not loopback.
    Abuse,
    /// A start of authority was asked for, but no name server is configured.
    MissingNsForSoa,
}

/// The warning that a resolution calls for, if any.
pub open spec fn warning_of(r: ResolutionView) -> Option<Warning> {
    match r {
        ResolutionView::Refused => Some(Warning::Abuse),
        ResolutionView::MissingNsForSoa => Some(Warning::MissingNsForSoa),
        _ => None,
    }
}

/// The header and sections of a reply, before the wire codec writes it out.
/// The response code is always "no error".
#[derive(Clone, Debug, PartialEq, Eq)]
pub struct Response {
    /// The request's transaction id, echoed.
    pub id: u16,
    /// The request's recursion-desired flag, echoed.
    pub recursion_desired: bool,
    /// Always false: this server never recurses.
    pub recursion_available: bool,
    /// Always true.
    pub is_response: bool,
    /// The question copied from the request, when it held exactly one.
    pub question: Option<Query>,
    pub answers: Vec<AnswerRecord>,
    /// What the operator should be told of this exchange.
    pub warning: Option<Warning>,
}

/// The reply to a request with transaction `id`, flag `recursion_desired` and
/// `questions`. With exactly one question it is answered under `config`
/// (`coin` is a fair random bit); otherwise the reply is empty, so that the
/// client still hears back.
pub fn respond(
    id: u16,
    recursion_desired: bool,
    questions: Vec<Query>,
    config: &ServerConfig,
    coin: bool,
) -> (r: Response)
    ensures
        r.id == id,
        r.recursion_desired == recursion_desired,
        !r.recursion_available,
        r.is_response,
        questions@.len() != 1 ==> r.question is None && r.answers@.len() == 0 && r.warning is None,
        questions@.len() == 1 ==> ({
            let settled = resolution(questions@[0].name@, questions@[0].query_type, config@, coin);
            &&& r.question == Some(questions@[0])
            &&& records_view(r.answers@) == answers_of(settled)
            &&& r.warning == warning_of(settled)
        }),
{
    let mut questions = questions;
    if questions.len() != 1 {
        return Response {
            id,
            recursion_desired,
            recursion_available: false,
            is_response: true,
            question: None,
            answers: Vec::new(),
            warning: None,
        };
    }
    let ghost all = questions@;
    let query = questions.pop().unwrap();
    assert(query == all[0]);
    let (answers, warning) = match resolve_query(&query, config, coin) {
        Resolution::Answered(v) => (v, None),
        Resolution::Refused => (Vec::new(), Some(Warning::Abuse)),
        Resolution::MissingNsForSoa => (Vec::new(), Some(Warning::MissingNsForSoa)),
        _ => (Vec::new(), None),
    };
    assert(answers@.len() == 0 ==> records_view(answers@) =~= Seq::<RecordView>::empty());
    Response {
        id,
        recursion_desired,
        recursion_available: false,
        is_response: true,
        question: Some(query),
        answers,
        warning,
    }
}

} // verus!
