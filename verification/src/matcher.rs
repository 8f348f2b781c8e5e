//! Finding the template of a statement by its exact text.

use crate::config::Config;
use crate::template::QueryTemplate;
use crate::template::TemplateView;
use crate::template::template_views;
use vstd::hash_map::StringHashMap;
use vstd::prelude::*;

verus! {

/// The table from statement text to template that a list of templates
/// makes: where two templates have the same text, the later one stands.
pub open spec fn template_table(templates: Seq<TemplateView>) -> Map<Seq<char>, TemplateView>
    decreases templates.len(),
{
    if templates.len() == 0 {
        Map::empty()
    } else {
        template_table(templates.drop_last()).insert(templates.last().sql, templates.last())
    }
}

/// A text is in the table exactly if some template has it, and the table
/// then holds the last template with that text.
pub proof fn lemma_template_table(templates: Seq<TemplateView>, sql: Seq<char>)
    ensures
        template_table(templates).contains_key(sql) <==> exists|i: int|
            0 <= i < templates.len() && (#[trigger] templates[i]).sql == sql,
        forall|i: int|
            0 <= i < templates.len() && (#[trigger] templates[i]).sql == sql && (forall|j: int|
                i < j < templates.len() ==> (#[trigger] templates[j]).sql != sql)
                ==> template_table(templates)[sql] == templates[i],
    decreases templates.len(),
{
    if templates.len() > 0 {
        let front = templates.drop_last();
        let last = templates.last();
        lemma_template_table(front, sql);
        if last.sql != sql {
            assert forall|i: int|
                0 <= i < templates.len() && (#[trigger] templates[i]).sql == sql implies 0 <= i
                < front.len() && front[i].sql == sql by {
                assert(templates[i] == front[i]);
            }
        }
    }
}

/// What the table holds under a text is one of the templates, and has that
/// text.
pub proof fn lemma_template_table_member(templates: Seq<TemplateView>, sql: Seq<char>)
    requires
        template_table(templates).contains_key(sql),
    ensures
        templates.contains(template_table(templates)[sql]),
        template_table(templates)[sql].sql == sql,
    decreases templates.len(),
{
    if templates.len() > 0 {
        let front = templates.drop_last();
        let last = templates.last();
        if last.sql != sql {
            lemma_template_table_member(front, sql);
        }
    }
}

/// The table of registered templates. It is built once and never changes.
pub struct QueryMatcher {
    templates: StringHashMap<QueryTemplate>,
}

impl View for QueryMatcher {
    type V = Map<Seq<char>, TemplateView>;

    closed spec fn view(&self) -> Map<Seq<char>, TemplateView> {
        self.templates@.map_values(|template: QueryTemplate| template@)
    }
}

impl QueryMatcher {
    /// Builds the table of the configured templates.
    pub fn new(config: &Config) -> (matcher: Self)
        ensures
            matcher@ == template_table(template_views(config.queries@)),
    {
        let ghost all = template_views(config.queries@);
        let mut templates: StringHashMap<QueryTemplate> = StringHashMap::new();
        let mut i: usize = 0;
        proof {
            assert(templates@.map_values(|template: QueryTemplate| template@) =~= template_table(
                all.take(0),
            ));
        }
        while i < config.queries.len()
            invariant
                i <= config.queries.len(),
                all == template_views(config.queries@),
                templates@.map_values(|template: QueryTemplate| template@) == template_table(
                    all.take(i as int),
                ),
            decreases config.queries.len() - i,
        {
            let query = &config.queries[i];
            let ghost before = templates@;
            let copy = query.clone();
            templates.insert(query.sql.clone(), copy);
            proof {
                assert(all.take(i + 1).drop_last() =~= all.take(i as int));
                assert(before.insert(query.sql@, copy).map_values(
                    |template: QueryTemplate| template@,
                ) =~= before.map_values(|template: QueryTemplate| template@).insert(
                    query.sql@,
                    copy@,
                ));
            }
            i += 1;
        }
        proof {
            assert(all.take(i as int) =~= all);
        }
        QueryMatcher { templates }
    }

    /// Finds the template whose text is exactly `sql`.
    pub fn find_template(&self, sql: &str) -> (found: Option<&QueryTemplate>)
        ensures
            match found {
                Some(template) => self@.contains_key(sql@) && self@[sql@] == template@,
                None => !self@.contains_key(sql@),
            },
    {
        self.templates.get(sql)
    }
}

} // verus!
