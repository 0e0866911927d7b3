//! Queries: what is asked, and what came back.
use vstd::prelude::*;

use crate::app::stream::message_models;
use crate::message::{string_view, MessageModel, ZenohMessage};
use crate::text::texts;

verus! {

/// Where a query stands.
#[derive(Debug, Clone, PartialEq, Eq)]
pub enum QueryStatus {
    Idle,
    Running,
    Done(usize),
    Error(String),
}

/// Where a query stands, as a mathematical value.
pub enum StatusModel {
    Idle,
    Running,
    Done(nat),
    Error(Seq<char>),
}

impl View for QueryStatus {
    type V = StatusModel;

    open spec fn view(&self) -> StatusModel {
        match self {
            QueryStatus::Idle => StatusModel::Idle,
            QueryStatus::Running => StatusModel::Running,
            QueryStatus::Done(n) => StatusModel::Done(*n as nat),
            QueryStatus::Error(e) => StatusModel::Error(e@),
        }
    }
}

/// Queries and their answers.
pub struct QueryPane {
    pub query_input: String,
    pub query_results: Vec<ZenohMessage>,
    pub query_history: Vec<String>,
    /// The query is being edited.
    pub query_editing: bool,
    /// A query handed over for sending.
    pub pending_query: Option<String>,
    pub query_status: QueryStatus,
    pub query_selected: usize,
}

/// Queries and their answers, as a mathematical value.
pub struct QueryModel {
    pub query_input: Seq<char>,
    pub query_results: Seq<MessageModel>,
    pub query_history: Seq<Seq<char>>,
    pub query_editing: bool,
    pub pending_query: Option<Seq<char>>,
    pub query_status: StatusModel,
    pub query_selected: usize,
}

impl View for QueryPane {
    type V = QueryModel;

    open spec fn view(&self) -> QueryModel {
        QueryModel {
            query_input: self.query_input@,
            query_results: message_models(self.query_results@),
            query_history: texts(self.query_history@),
            query_editing: self.query_editing,
            pending_query: string_view(self.pending_query),
            query_status: self.query_status@,
            query_selected: self.query_selected,
        }
    }
}

impl QueryModel {
    /// After a query was asked for.
    pub open spec fn asked(self, key_expr: Seq<char>) -> QueryModel {
        QueryModel {
            query_history: self.query_history.push(key_expr),
            pending_query: Some(key_expr),
            ..self
        }
    }

    /// After the edited query was committed: an empty one asks nothing.
    pub open spec fn committed(self) -> QueryModel {
        let done = QueryModel { query_editing: false, ..self };
        if self.query_editing && self.query_input.len() > 0 {
            done.asked(self.query_input)
        } else {
            done
        }
    }

    /// After the pending query was taken up, by a session or in vain.
    pub open spec fn started(self, connected: bool) -> QueryModel {
        QueryModel {
            pending_query: None,
            query_status: if connected {
                StatusModel::Running
            } else {
                StatusModel::Error("Not connected"@)
            },
            ..self
        }
    }

    /// After the answers came.
    pub open spec fn answered(self, results: Seq<MessageModel>) -> QueryModel {
        QueryModel {
            query_results: results,
            query_status: StatusModel::Done(results.len()),
            ..self
        }
    }

    /// After the query failed. Earlier answers stay.
    pub open spec fn failed(self, why: Seq<char>) -> QueryModel {
        QueryModel { query_status: StatusModel::Error(why), ..self }
    }

    /// No query yet.
    pub open spec fn fresh() -> QueryModel {
        QueryModel {
            query_input: Seq::empty(),
            query_results: Seq::empty(),
            query_history: Seq::empty(),
            query_editing: false,
            pending_query: None,
            query_status: StatusModel::Idle,
            query_selected: 0,
        }
    }
}

impl QueryPane {
    /// No query yet.
    pub fn new() -> (q: QueryPane)
        ensures
            q@ == QueryModel::fresh(),
    {
        let q = QueryPane {
            query_input: String::new(),
            query_results: Vec::new(),
            query_history: Vec::new(),
            query_editing: false,
            pending_query: None,
            query_status: QueryStatus::Idle,
            query_selected: 0,
        };
        assert(q@.query_results =~= Seq::empty());
        assert(q@.query_history =~= Seq::empty());
        q
    }

    /// Ask for a key expression.
    pub fn ask(&mut self, key_expr: String)
        ensures
            final(self)@ == old(self)@.asked(key_expr@),
    {
        let ghost before = self.query_history@;
        self.query_history.push(key_expr.clone());
        assert(texts(self.query_history@) =~= texts(before).push(key_expr@));
        self.pending_query = Some(key_expr);
    }

    /// Commit the edited query.
    pub fn commit(&mut self)
        ensures
            final(self)@ == old(self)@.committed(),
    {
        if self.query_editing {
            self.query_editing = false;
            if !self.query_input.as_str().is_empty() {
                let input = self.query_input.clone();
                self.ask(input);
            }
        }
    }

    /// Take up the pending query: hand it out, and note whether there is a session
    /// to run it on.
    pub fn take_pending(&mut self, connected: bool) -> (r: Option<String>)
        ensures
            string_view(r) == old(self)@.pending_query,
            match old(self)@.pending_query {
                Some(_) => final(self)@ == old(self)@.started(connected),
                None => final(self)@ == old(self)@,
            },
    {
        let mut taken: Option<String> = None;
        std::mem::swap(&mut taken, &mut self.pending_query);
        if taken.is_some() {
            self.query_status = if connected {
                QueryStatus::Running
            } else {
                QueryStatus::Error("Not connected".to_owned())
            };
        }
        taken
    }

    /// The answers came.
    pub fn answer(&mut self, results: Vec<ZenohMessage>)
        ensures
            final(self)@ == old(self)@.answered(message_models(results@)),
    {
        self.query_status = QueryStatus::Done(results.len());
        self.query_results = results;
    }

    /// The query failed.
    pub fn fail(&mut self, why: String)
        ensures
            final(self)@ == old(self)@.failed(why@),
    {
        self.query_status = QueryStatus::Error(why);
    }
}

} // verus!
