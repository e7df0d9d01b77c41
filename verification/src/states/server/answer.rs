//! The answers of the store, and the one way in for all of them.
//!
//! A task that was handed out in an [`Outcome`] comes back here as the
//! [`Dispatch`] that named it together with what the store answered. The
//! request of the dispatch says which command the answer belongs to; an
//! answer of a shape that does not fit the request counts as a failure of the
//! protocol.

use vstd::prelude::*;
use vstd::string::StringExecFns;

use crate::error::{Error, ErrorKind, ErrorView};
use crate::states::server::value::{RedisValue, ValueView};
use crate::states::server::{
    Dispatch, DispatchView, Outcome, OutcomeView, RequestView, ServerView, StoreRequest,
    ZedisServerState,
};

verus! {

/// What the store answered to a request.
#[derive(Debug, Clone, PartialEq, Eq)]
pub enum Answer {
    /// A page of keys, behind the cursor to go on from.
    Keys(u64, Vec<String>),
    /// The keys below a folder.
    Found(Vec<String>),
    /// The value of a key.
    Value(RedisValue),
    /// A page of the fields of a hash, behind the cursor to go on from.
    Fields(u64, Vec<(String, String)>),
    /// The number of fields that a write created or removed.
    Count(usize),
}

/// The mathematical value of an [`Answer`].
pub ghost enum AnswerView {
    Keys(u64, Seq<Seq<char>>),
    Found(Seq<Seq<char>>),
    Value(ValueView),
    Fields(u64, Seq<(Seq<char>, Seq<char>)>),
    Count(nat),
}

impl View for Answer {
    type V = AnswerView;

    open spec fn view(&self) -> AnswerView {
        match self {
            Answer::Keys(cursor, keys) => AnswerView::Keys(*cursor, keys.deep_view()),
            Answer::Found(keys) => AnswerView::Found(keys.deep_view()),
            Answer::Value(value) => AnswerView::Value(value@),
            Answer::Fields(cursor, fields) => AnswerView::Fields(*cursor, fields.deep_view()),
            Answer::Count(count) => AnswerView::Count(*count as nat),
        }
    }
}

/// What came back from the store: its answer or its failure.
pub open spec fn answered(r: Result<Answer, Error>) -> Result<AnswerView, ErrorView> {
    match r {
        Ok(a) => Ok(a@),
        Err(e) => Err(e@),
    }
}

/// The text of the failure that an answer of the wrong shape counts as.
pub open spec fn misfit_message() -> Seq<char> {
    "the answer does not fit the request"@
}

/// The failure that an answer of the wrong shape counts as.
pub open spec fn misfit() -> ErrorView {
    ErrorView { kind: ErrorKind::Protocol, message: misfit_message() }
}

/// The page of keys in what came back.
pub open spec fn as_keys(r: Result<AnswerView, ErrorView>) -> Result<
    (u64, Seq<Seq<char>>),
    ErrorView,
> {
    match r {
        Ok(AnswerView::Keys(cursor, keys)) => Ok((cursor, keys)),
        Ok(_) => Err(misfit()),
        Err(e) => Err(e),
    }
}

/// The keys below a folder in what came back.
pub open spec fn as_found(r: Result<AnswerView, ErrorView>) -> Result<Seq<Seq<char>>, ErrorView> {
    match r {
        Ok(AnswerView::Found(keys)) => Ok(keys),
        Ok(_) => Err(misfit()),
        Err(e) => Err(e),
    }
}

/// The value in what came back.
pub open spec fn as_value(r: Result<AnswerView, ErrorView>) -> Result<ValueView, ErrorView> {
    match r {
        Ok(AnswerView::Value(value)) => Ok(value),
        Ok(_) => Err(misfit()),
        Err(e) => Err(e),
    }
}

/// The page of fields in what came back.
pub open spec fn as_fields(r: Result<AnswerView, ErrorView>) -> Result<
    (u64, Seq<(Seq<char>, Seq<char>)>),
    ErrorView,
> {
    match r {
        Ok(AnswerView::Fields(cursor, fields)) => Ok((cursor, fields)),
        Ok(_) => Err(misfit()),
        Err(e) => Err(e),
    }
}

/// The count in what came back.
pub open spec fn as_count(r: Result<AnswerView, ErrorView>) -> Result<nat, ErrorView> {
    match r {
        Ok(AnswerView::Count(count)) => Ok(count),
        Ok(_) => Err(misfit()),
        Err(e) => Err(e),
    }
}

impl ServerView {
    /// Whether the size that [`ServerView::apply`] would record can be
    /// held.
    pub open spec fn fits(self, dispatch: DispatchView, answer: Result<AnswerView, ErrorView>) -> bool {
        match dispatch.request {
            RequestView::HashSet { .. } => self.add_fits(dispatch.record, as_count(answer)),
            RequestView::HashDel { .. } => self.remove_fits(dispatch.record, as_count(answer)),
            _ => true,
        }
    }

    /// Takes in what came back for the task of `dispatch`: the answer goes
    /// to the command that the request belongs to, with the stamp, the
    /// generation and the names that the dispatch holds.
    pub open spec fn apply(self, dispatch: DispatchView, answer: Result<AnswerView, ErrorView>) -> (
        ServerView,
        OutcomeView,
    ) {
        match dispatch.request {
            RequestView::ScanKeys { .. } => self.apply_scan_keys(
                dispatch.record,
                dispatch.generation,
                as_keys(answer),
            ),
            RequestView::ScanPrefix { .. } => self.apply_scan_prefix(
                dispatch.record,
                dispatch.generation,
                as_found(answer),
            ),
            RequestView::Fetch { .. } => self.apply_select_key(dispatch.record, as_value(answer)),
            RequestView::HashScan { key, .. } => self.apply_load_more_hash_value(
                dispatch.record,
                key,
                as_fields(answer),
            ),
            RequestView::HashSet { key, .. } => self.apply_add_hash_value(
                dispatch.record,
                key,
                as_count(answer),
            ),
            RequestView::HashDel { key, field } => self.apply_remove_hash_value(
                dispatch.record,
                key,
                field,
                as_count(answer),
            ),
        }
    }
}

/// The failure that an answer of the wrong shape counts as.
fn misfit_error() -> (r: Error)
    ensures
        r@ == misfit(),
{
    Error::new(ErrorKind::Protocol, "the answer does not fit the request")
}

/// The count in what came back.
fn count_of(answer: Result<Answer, Error>) -> (r: Result<usize, Error>)
    ensures
        crate::states::server::hash::counted(r) == as_count(answered(answer)),
{
    match answer {
        Ok(Answer::Count(count)) => Ok(count),
        Ok(_) => Err(misfit_error()),
        Err(e) => Err(e),
    }
}

/// The count in what came back, as far as there is one.
fn count_in(answer: &Result<Answer, Error>) -> (r: Option<usize>)
    ensures
        match r {
            Some(n) => as_count(answered(*answer)) == Ok::<nat, ErrorView>(n as nat),
            None => as_count(answered(*answer)) is Err,
        },
{
    match answer {
        Ok(Answer::Count(count)) => Some(*count),
        _ => None,
    }
}

impl ZedisServerState {
    /// Whether the size that [`ZedisServerState::apply`] would record can
    /// be held: to be asked before that is called.
    pub fn fits(&self, dispatch: &Dispatch, answer: &Result<Answer, Error>) -> (r: bool)
        ensures
            r == self@.fits(dispatch@, answered(*answer)),
    {
        match count_in(answer) {
            Some(count) => match &dispatch.request {
                StoreRequest::HashSet { .. } => self.add_fits(dispatch.record, &Ok(count)),
                StoreRequest::HashDel { .. } => self.remove_fits(dispatch.record, &Ok(count)),
                _ => true,
            },
            None => true,
        }
    }

    /// Takes in what came back for the task of `dispatch`. See
    /// [`ServerView::apply`].
    pub fn apply(&mut self, dispatch: Dispatch, answer: Result<Answer, Error>) -> (out: Outcome)
        requires
            old(self)@.fits(dispatch@, answered(answer)),
        ensures
            final(self)@ == old(self)@.apply(dispatch@, answered(answer)).0,
            out@ == old(self)@.apply(dispatch@, answered(answer)).1,
    {
        let Dispatch { record, generation, request } = dispatch;
        match request {
            StoreRequest::ScanKeys { .. } => {
                let page = match answer {
                    Ok(Answer::Keys(cursor, keys)) => Ok((cursor, keys)),
                    Ok(_) => Err(misfit_error()),
                    Err(e) => Err(e),
                };
                self.apply_scan_keys(record, generation, page)
            },
            StoreRequest::ScanPrefix { .. } => {
                let found = match answer {
                    Ok(Answer::Found(keys)) => Ok(keys),
                    Ok(_) => Err(misfit_error()),
                    Err(e) => Err(e),
                };
                self.apply_scan_prefix(record, generation, found)
            },
            StoreRequest::Fetch { .. } => {
                let value = match answer {
                    Ok(Answer::Value(value)) => Ok(value),
                    Ok(_) => Err(misfit_error()),
                    Err(e) => Err(e),
                };
                self.apply_select_key(record, value)
            },
            StoreRequest::HashScan { key, .. } => {
                let page = match answer {
                    Ok(Answer::Fields(cursor, fields)) => Ok((cursor, fields)),
                    Ok(_) => Err(misfit_error()),
                    Err(e) => Err(e),
                };
                self.apply_load_more_hash_value(record, key, page)
            },
            StoreRequest::HashSet { key, .. } => {
                self.apply_add_hash_value(record, key, count_of(answer))
            },
            StoreRequest::HashDel { key, field } => {
                self.apply_remove_hash_value(record, key, field.as_str(), count_of(answer))
            },
        }
    }
}

/// What comes back for a task whose stamp is not the latest of its kind
/// changes nothing, announces nothing and asks for nothing, whatever it is
/// and whichever command it belongs to.
pub proof fn lemma_superseded_task_changes_nothing(
    s: ServerView,
    dispatch: DispatchView,
    answer: Result<AnswerView, ErrorView>,
)
    requires
        !s.tasks.accepts(dispatch.record),
    ensures
        s.apply(dispatch, answer) == (s, OutcomeView::nothing()),
        s.fits(dispatch, answer),
{
}

} // verus!
