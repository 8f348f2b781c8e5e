//! Query templates: the statements whose results may be cached.

use vstd::prelude::*;

verus! {

/// A registered statement. Its identity is its text, `sql`, exactly as
/// written: texts that differ in case or white space are different
/// templates.
#[derive(Debug, PartialEq, Eq)]
pub struct QueryTemplate {
    pub name: String,
    pub sql: String,
    /// Seconds for which a result of this statement may be served; where
    /// absent, the cache-wide time-to-live applies.
    pub ttl: Option<u64>,
}

/// The content of a [`QueryTemplate`].
pub ghost struct TemplateView {
    pub name: Seq<char>,
    pub sql: Seq<char>,
    pub ttl: Option<u64>,
}

impl View for QueryTemplate {
    type V = TemplateView;

    open spec fn view(&self) -> TemplateView {
        TemplateView { name: self.name@, sql: self.sql@, ttl: self.ttl }
    }
}

impl Clone for QueryTemplate {
    fn clone(&self) -> (copy: Self)
        ensures
            copy@ == self@,
    {
        QueryTemplate { name: self.name.clone(), sql: self.sql.clone(), ttl: self.ttl }
    }
}

/// The contents of a list of templates, in order.
pub open spec fn template_views(templates: Seq<QueryTemplate>) -> Seq<TemplateView> {
    Seq::new(templates.len(), |i: int| templates[i]@)
}

/// The seconds for which a result is kept: the template's own time-to-live
/// where it has one, else the cache-wide one.
pub open spec fn effective_ttl(template_ttl: Option<u64>, global_ttl: u64) -> u64 {
    match template_ttl {
        Some(ttl) => ttl,
        None => global_ttl,
    }
}

impl QueryTemplate {
    /// The seconds for which a result of this template is kept, given the
    /// cache-wide time-to-live.
    pub fn resolve_ttl(&self, global_ttl: u64) -> (ttl: u64)
        ensures
            ttl == effective_ttl(self.ttl, global_ttl),
    {
        match self.ttl {
            Some(ttl) => ttl,
            None => global_ttl,
        }
    }
}

/// Milliseconds in one second. Instants are counted in milliseconds, times
/// to live in seconds.
pub const MILLIS_PER_SECOND: u64 = 1000;

/// The instant `ttl_secs` seconds after `now`, as a mathematical integer.
pub open spec fn instant_after(now: u64, ttl_secs: u64) -> int {
    now + ttl_secs * MILLIS_PER_SECOND
}

/// The expiry of what is stored at `now` to be kept for `ttl_secs` seconds:
/// that many seconds after `now`, or the last instant there is.
pub open spec fn expiry_of(now: u64, ttl_secs: u64) -> u64 {
    if instant_after(now, ttl_secs) <= u64::MAX {
        instant_after(now, ttl_secs) as u64
    } else {
        u64::MAX
    }
}

/// Computes [`expiry_of`].
pub fn expiry_at(now: u64, ttl_secs: u64) -> (expiry: u64)
    ensures
        expiry == expiry_of(now, ttl_secs),
{
    match ttl_secs.checked_mul(MILLIS_PER_SECOND) {
        Some(span) => now.saturating_add(span),
        None => u64::MAX,
    }
}

} // verus!
