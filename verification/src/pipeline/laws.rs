//! What holds of every answer.

use crate::codec::format::encode_spec;
use crate::codec::laws::lemma_decode_encode;
use crate::config::lemma_ttl_ceiling_is_maximum;
use crate::config::ttl_ceiling_of;
use crate::key::cache_key_of;
use crate::matcher::lemma_template_table_member;
use crate::matcher::template_table;
use crate::pipeline::plan::StepView;
use crate::pipeline::plan::cached_rows;
use crate::pipeline::plan::entries_after_completion;
use crate::pipeline::plan::entries_after_plan;
use crate::pipeline::plan::entry_for;
use crate::pipeline::plan::planned;
use crate::pipeline::plan::planned_ttl;
use crate::pipeline::rows::RawColumn;
use crate::store::laws::lemma_stored_lookup;
use crate::store::laws::lemma_unexpired_lookup;
use crate::store::laws::lemma_without_lookup;
use crate::store::model::EntryView;
use crate::store::model::distinct_keys;
use crate::store::model::lookup;
use crate::store::model::stored;
use crate::store::model::unexpired;
use crate::store::model::well_formed;
use crate::template::TemplateView;
use crate::template::expiry_of;
use crate::value::Tree;
use vstd::prelude::*;

verus! {

/// An entry that has expired is not served: at or past the expiry of the
/// entry under its key, no request is answered from the cache.
pub proof fn lemma_expired_is_not_served(
    table: Map<Seq<char>, TemplateView>,
    entries: Seq<EntryView>,
    global_ttl: u64,
    now: u64,
    sql: Seq<char>,
    params: Seq<Tree>,
)
    requires
        lookup(entries, cache_key_of(sql, params)) matches Some(entry) && now >= entry.expiry,
    ensures
        !(planned(table, entries, global_ttl, now, sql, params) is Hit),
        lookup(
            entries_after_plan(table, entries, now, sql, params),
            cache_key_of(sql, params),
        ) is Some ==> !table.contains_key(sql),
{
    lemma_without_lookup(entries, cache_key_of(sql, params), cache_key_of(sql, params));
}

/// A request is answered from the cache only from an entry under its key
/// that has not expired, and with the rows that the entry holds.
pub proof fn lemma_hit_is_fresh(
    table: Map<Seq<char>, TemplateView>,
    entries: Seq<EntryView>,
    global_ttl: u64,
    now: u64,
    sql: Seq<char>,
    params: Seq<Tree>,
)
    requires
        planned(table, entries, global_ttl, now, sql, params) is Hit,
    ensures
        table.contains_key(sql),
        lookup(entries, cache_key_of(sql, params)) matches Some(entry) && now < entry.expiry
            && cached_rows(entry.payload) == Some(
            planned(table, entries, global_ttl, now, sql, params)->Hit_0,
        ),
        entries_after_plan(table, entries, now, sql, params) == entries,
{
}

/// The time-to-live of a template that names one is its own, whatever the
/// cache-wide one is; that of a template that names none is the cache-wide
/// one.
pub proof fn lemma_template_ttl_wins(
    table: Map<Seq<char>, TemplateView>,
    global_ttl: u64,
    sql: Seq<char>,
)
    requires
        table.contains_key(sql),
    ensures
        planned_ttl(table, global_ttl, sql) == Some(
            match table[sql].ttl {
                Some(ttl) => ttl,
                None => global_ttl,
            },
        ),
{
}

/// A request whose statement is no template leaves the cache as it is:
/// nothing is read, nothing leaves, and nothing is written when its result
/// comes back.
pub proof fn lemma_unmatched_is_never_cached(
    table: Map<Seq<char>, TemplateView>,
    entries: Seq<EntryView>,
    capacity: u64,
    global_ttl: u64,
    now: u64,
    later: u64,
    sql: Seq<char>,
    params: Seq<Tree>,
    outcome: Result<Vec<Vec<RawColumn>>, String>,
)
    requires
        !table.contains_key(sql),
    ensures
        !(planned(table, entries, global_ttl, now, sql, params) is Hit),
        entries_after_plan(table, entries, now, sql, params) == entries,
        planned(table, entries, global_ttl, now, sql, params) matches StepView::Execute(pending)
            ==> pending.ttl is None && entries_after_completion(
            entries,
            capacity,
            pending.key,
            pending.ttl,
            later,
            outcome,
        ) == entries,
{
}

/// What was stored for a request is what the same request is answered with
/// until it expires: after rows have come back at `now` for a template, the
/// request is answered from the cache with those rows at every instant
/// before the expiry, provided that the payload is within the capacity and
/// the entry has not left the cache since.
pub proof fn lemma_stored_then_served(
    table: Map<Seq<char>, TemplateView>,
    entries: Seq<EntryView>,
    capacity: u64,
    global_ttl: u64,
    now: u64,
    later: u64,
    sql: Seq<char>,
    params: Seq<Tree>,
    rows: Seq<Tree>,
)
    requires
        well_formed(entries, capacity),
        table.contains_key(sql),
        Tree::Array(rows).fits(),
        encode_spec(Tree::Array(rows)).len() <= capacity,
        later < expiry_of(now, planned_ttl(table, global_ttl, sql)->0),
    ensures
        planned(
            table,
            stored(
                entries,
                capacity,
                entry_for(
                    cache_key_of(sql, params),
                    planned_ttl(table, global_ttl, sql)->0,
                    now,
                    rows,
                ),
            ),
            global_ttl,
            later,
            sql,
            params,
        ) == StepView::Hit(rows),
{
    let key = cache_key_of(sql, params);
    let entry = entry_for(key, planned_ttl(table, global_ttl, sql)->0, now, rows);
    lemma_stored_lookup(entries, capacity, entry);
    lemma_decode_encode(Tree::Array(rows));
}

/// Letting go what has expired changes no answer: what is to be done for a
/// request at `later` is the same whether or not the entries that had
/// expired at `now` have left.
pub proof fn lemma_purge_changes_no_answer(
    table: Map<Seq<char>, TemplateView>,
    entries: Seq<EntryView>,
    global_ttl: u64,
    now: u64,
    later: u64,
    sql: Seq<char>,
    params: Seq<Tree>,
)
    requires
        distinct_keys(entries),
        now <= later,
    ensures
        planned(table, unexpired(entries, now), global_ttl, later, sql, params) == planned(
            table,
            entries,
            global_ttl,
            later,
            sql,
            params,
        ),
{
    lemma_unexpired_lookup(entries, now, cache_key_of(sql, params));
}

/// No result is kept for longer than the ceiling: the time-to-live of every
/// template is at most the largest among the cache-wide one and the
/// templates' own.
pub proof fn lemma_ttl_within_ceiling(
    templates: Seq<TemplateView>,
    global_ttl: u64,
    sql: Seq<char>,
)
    ensures
        planned_ttl(template_table(templates), global_ttl, sql) matches Some(ttl) ==> ttl
            <= ttl_ceiling_of(templates, global_ttl),
{
    let table = template_table(templates);
    if table.contains_key(sql) {
        lemma_template_table_member(templates, sql);
        lemma_ttl_ceiling_is_maximum(templates, global_ttl);
    }
}

} // verus!
