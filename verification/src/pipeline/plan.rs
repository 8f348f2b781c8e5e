//! The two steps of answering a request.

use crate::codec::format::decode_spec;
use crate::codec::format::encode_spec;
use crate::codec::reader::decode;
use crate::codec::writer::encode_array;
use crate::key::cache_key;
use crate::key::cache_key_of;
use crate::matcher::QueryMatcher;
use crate::pipeline::binding::Binding;
use crate::pipeline::binding::BindingView;
use crate::pipeline::binding::all_bindable;
use crate::pipeline::binding::bind_parameters;
use crate::pipeline::binding::binding_views;
use crate::pipeline::binding::bindings_of;
use crate::pipeline::request::ErrorView;
use crate::pipeline::request::QueryError;
use crate::pipeline::request::QueryRequest;
use crate::pipeline::request::QueryResponse;
use crate::pipeline::rows::RawColumn;
use crate::pipeline::rows::convert_rows;
use crate::pipeline::rows::row_trees;
use crate::store::cache::ResultCache;
use crate::store::model::EntryView;
use crate::store::model::lookup;
use crate::store::model::stored;
use crate::store::model::without;
use crate::template::TemplateView;
use crate::template::effective_ttl;
use crate::template::expiry_at;
use crate::template::expiry_of;
use crate::value::PostcardValue;
use crate::value::Tree;
use crate::value::lemma_view_array;
use crate::value::trees;
use vstd::prelude::*;

verus! {

/// A statement that is to be executed, and what to do with its result.
#[derive(Debug, PartialEq, Eq)]
pub struct PendingQuery {
    pub sql: String,
    /// The parameters as they are handed to the database, in order.
    pub bindings: Vec<Binding>,
    /// The cache key of the request.
    pub key: String,
    /// The seconds for which the result is kept in the cache; absent where
    /// the statement is no registered template, and the result is not kept.
    pub ttl: Option<u64>,
}

/// The content of a [`PendingQuery`].
pub ghost struct PendingView {
    pub sql: Seq<char>,
    pub bindings: Seq<BindingView>,
    pub key: Seq<char>,
    pub ttl: Option<u64>,
}

impl View for PendingQuery {
    type V = PendingView;

    open spec fn view(&self) -> PendingView {
        PendingView {
            sql: self.sql@,
            bindings: binding_views(self.bindings@),
            key: self.key@,
            ttl: self.ttl,
        }
    }
}

/// What is to be done for a request.
#[derive(Debug, PartialEq, Eq)]
pub enum QueryStep {
    /// Answer with these rows: they were in the cache.
    Hit(QueryResponse),
    /// Execute the statement, and hand what comes back to [`complete_query`].
    Execute(PendingQuery),
    /// Report this failure.
    Fail(QueryError),
}

/// The content of a [`QueryStep`].
pub ghost enum StepView {
    Hit(Seq<Tree>),
    Execute(PendingView),
    Fail(ErrorView),
}

impl View for QueryStep {
    type V = StepView;

    open spec fn view(&self) -> StepView {
        match self {
            QueryStep::Hit(response) => StepView::Hit(trees(response.rows@)),
            QueryStep::Execute(pending) => StepView::Execute(pending@),
            QueryStep::Fail(error) => StepView::Fail(error@),
        }
    }
}

/// The seconds for which a result of this statement is kept: those of its
/// template, if it is one.
pub open spec fn planned_ttl(
    table: Map<Seq<char>, TemplateView>,
    global_ttl: u64,
    sql: Seq<char>,
) -> Option<u64> {
    if table.contains_key(sql) {
        Some(effective_ttl(table[sql].ttl, global_ttl))
    } else {
        None
    }
}

/// The entry that a request is answered from at `now`: the one under its
/// key, if the statement is a template and the entry has not expired.
pub open spec fn served(
    table: Map<Seq<char>, TemplateView>,
    entries: Seq<EntryView>,
    now: u64,
    sql: Seq<char>,
    params: Seq<Tree>,
) -> Option<EntryView> {
    if !table.contains_key(sql) {
        None
    } else {
        match lookup(entries, cache_key_of(sql, params)) {
            Some(entry) => if now < entry.expiry {
                Some(entry)
            } else {
                None
            },
            None => None,
        }
    }
}

/// The rows that a payload holds, if it is the byte form of an array.
pub open spec fn cached_rows(payload: Seq<u8>) -> Option<Seq<Tree>> {
    match decode_spec(payload) {
        Ok(Tree::Array(rows)) => Some(rows),
        _ => None,
    }
}

/// What is to be done for a request at `now`.
pub open spec fn planned(
    table: Map<Seq<char>, TemplateView>,
    entries: Seq<EntryView>,
    global_ttl: u64,
    now: u64,
    sql: Seq<char>,
    params: Seq<Tree>,
) -> StepView {
    match served(table, entries, now, sql, params) {
        Some(entry) => match cached_rows(entry.payload) {
            Some(rows) => StepView::Hit(rows),
            None => StepView::Fail(ErrorView::Serialization),
        },
        None => if all_bindable(params) {
            StepView::Execute(
                PendingView {
                    sql,
                    bindings: bindings_of(params),
                    key: cache_key_of(sql, params),
                    ttl: planned_ttl(table, global_ttl, sql),
                },
            )
        } else {
            StepView::Fail(ErrorView::BadRequest)
        },
    }
}

/// The entries after a request has been looked at at `now`: an entry under
/// its key that has expired leaves, if the statement is a template.
pub open spec fn entries_after_plan(
    table: Map<Seq<char>, TemplateView>,
    entries: Seq<EntryView>,
    now: u64,
    sql: Seq<char>,
    params: Seq<Tree>,
) -> Seq<EntryView> {
    if !table.contains_key(sql) {
        entries
    } else {
        match lookup(entries, cache_key_of(sql, params)) {
            Some(entry) => if now < entry.expiry {
                entries
            } else {
                without(entries, cache_key_of(sql, params))
            },
            None => entries,
        }
    }
}

/// The entry that is written for rows that came back at `now`.
pub open spec fn entry_for(key: Seq<char>, ttl: u64, now: u64, rows: Seq<Tree>) -> EntryView {
    EntryView { key, payload: encode_spec(Tree::Array(rows)), expiry: expiry_of(now, ttl) }
}

/// The entries after the result of a statement has come back at `now`.
pub open spec fn entries_after_completion(
    entries: Seq<EntryView>,
    capacity: u64,
    key: Seq<char>,
    ttl: Option<u64>,
    now: u64,
    outcome: Result<Vec<Vec<RawColumn>>, String>,
) -> Seq<EntryView> {
    match (outcome, ttl) {
        (Ok(rows), Some(ttl)) => stored(entries, capacity, entry_for(key, ttl, now, row_trees(rows@))),
        _ => entries,
    }
}

/// Decides what is to be done for a request at the instant `now`.
///
/// A request whose statement is a registered template is answered from the
/// cache if an entry is there under its key and has not expired. An entry
/// that has expired leaves the cache. Else the statement is to be executed,
/// with its parameters bound; a parameter that cannot be bound fails the
/// request. No entry is served at or past its expiry, and the cache is not
/// read for a statement that is no template.
pub fn query_handler(
    matcher: &QueryMatcher,
    cache: &mut ResultCache,
    global_ttl: u64,
    now: u64,
    body: &QueryRequest,
) -> (step: QueryStep)
    ensures
        step@ == planned(
            matcher@,
            old(cache).entries(),
            global_ttl,
            now,
            body.sql@,
            trees(body.params@),
        ),
        final(cache).entries() == entries_after_plan(
            matcher@,
            old(cache).entries(),
            now,
            body.sql@,
            trees(body.params@),
        ),
        final(cache).budget() == old(cache).budget(),
{
    let key = cache_key(body.sql.as_str(), body.params.as_slice());
    let ttl = match matcher.find_template(body.sql.as_str()) {
        Some(template) => Some(template.resolve_ttl(global_ttl)),
        None => None,
    };
    if ttl.is_some() {
        let mut expired = false;
        match cache.get(key.as_str()) {
            Some(entry) => {
                if now < entry.expiry {
                    return match decode(entry.payload.as_slice()) {
                        Ok(PostcardValue::Array(rows)) => {
                            proof {
                                lemma_view_array(rows);
                            }
                            QueryStep::Hit(QueryResponse { rows })
                        },
                        _ => QueryStep::Fail(QueryError::Serialization),
                    };
                }
                expired = true;
            },
            None => {},
        }
        if expired {
            cache.invalidate(key.as_str());
        }
    }
    match bind_parameters(body.params.as_slice()) {
        Ok(bindings) => QueryStep::Execute(
            PendingQuery { sql: body.sql.clone(), bindings, key, ttl },
        ),
        Err(error) => QueryStep::Fail(error),
    }
}

/// Makes the answer from what came back for an executed statement at the
/// instant `now`, and stores it.
///
/// A failure of the database is reported with its message, and nothing is
/// stored. Rows are converted column by column. The answer is stored under
/// the request's key, to expire its time-to-live after `now`, if the
/// statement is a template; else nothing is stored.
pub fn complete_query(
    cache: &mut ResultCache,
    pending: &PendingQuery,
    now: u64,
    outcome: Result<Vec<Vec<RawColumn>>, String>,
) -> (answer: Result<QueryResponse, QueryError>)
    ensures
        match outcome {
            Ok(rows) => answer matches Ok(response) && trees(response.rows@) == row_trees(rows@),
            Err(message) => answer matches Err(error) && error@ == ErrorView::Upstream(message@),
        },
        final(cache).entries() == entries_after_completion(
            old(cache).entries(),
            old(cache).budget(),
            pending.key@,
            pending.ttl,
            now,
            outcome,
        ),
        final(cache).budget() == old(cache).budget(),
{
    match outcome {
        Ok(rows) => {
            let objects = convert_rows(&rows);
            match pending.ttl {
                Some(ttl) => {
                    let payload = encode_array(objects.as_slice());
                    cache.put(pending.key.clone(), payload, expiry_at(now, ttl));
                },
                None => {},
            }
            Ok(QueryResponse { rows: objects })
        },
        Err(message) => Err(QueryError::Upstream(message)),
    }
}

} // verus!
