use vstd::prelude::*;
use crate::codec::tags_text;
use crate::ingest::{expects_image, inline_image};
use crate::model::{Collection, NewPrompt, Prompt, StoreError, UpdatePrompt};
use crate::store::{
    DatabaseView, create_collection_outcome, created_from, matches_query, newest_first, toggle_outcome,
    update_outcome, updated_from,
};

verus! {

/// A row is in a newest-first selection exactly when it is one of the rows
/// and the filter keeps it.
pub proof fn lemma_newest_first_members(rows: Seq<Prompt>, keep: spec_fn(Prompt) -> bool)
    ensures
        forall|p: Prompt| #[trigger] newest_first(rows, keep).contains(p) <==> (rows.contains(p) && keep(p)),
    decreases rows.len(),
{
    if rows.len() > 0 {
        let init = rows.drop_last();
        lemma_newest_first_members(init, keep);
        assert(rows =~= init.push(rows.last()));
        assert forall|p: Prompt| newest_first(rows, keep).contains(p) <==> (rows.contains(p) && keep(p)) by {
            let rest = newest_first(init, keep);
            let last = rows.last();
            if newest_first(rows, keep).contains(p) {
                if keep(last) {
                    let s = seq![last] + rest;
                    assert(newest_first(rows, keep) == s);
                    let i = choose|i: int| 0 <= i < s.len() && s[i] == p;
                    if i == 0 {
                        assert(rows[rows.len() - 1] == p);
                    } else {
                        assert(rest[i - 1] == p);
                        assert(rest.contains(p));
                        assert(init.contains(p));
                        let j = choose|j: int| 0 <= j < init.len() && init[j] == p;
                        assert(rows[j] == p);
                    }
                } else {
                    assert(rest.contains(p));
                    assert(init.contains(p));
                    let j = choose|j: int| 0 <= j < init.len() && init[j] == p;
                    assert(rows[j] == p);
                }
            }
            if rows.contains(p) && keep(p) {
                let i = choose|i: int| 0 <= i < rows.len() && rows[i] == p;
                if i == rows.len() - 1 {
                    let s = seq![last] + rest;
                    assert(s[0] == p);
                } else {
                    assert(init[i] == p);
                    assert(init.contains(p));
                    assert(rest.contains(p));
                    let j = choose|j: int| 0 <= j < rest.len() && rest[j] == p;
                    if keep(last) {
                        let s = seq![last] + rest;
                        assert(s[j + 1] == p);
                    }
                }
            }
        }
    }
}

/// Search returns exactly the rows whose title, prompt text or stored tags
/// contain the query (ASCII letters compared without regard to case), and
/// no other.
pub proof fn law_search_selects_matches(rows: Seq<Prompt>, query: Seq<char>)
    ensures
        forall|p: Prompt|
            newest_first(rows, |q: Prompt| matches_query(q, query)).contains(p) <==> (rows.contains(p)
                && matches_query(p, query)),
{
    lemma_newest_first_members(rows, |q: Prompt| matches_query(q, query));
}

/// With no image source and no flag, no image is expected, none is found,
/// and the prompt is recorded with neither an image nor a thumbnail path.
pub proof fn law_prompt_without_image(has_image: Option<bool>, p: Prompt, np: NewPrompt, id: int, stamp: int)
    requires
        has_image != Some(true),
        created_from(p, np, None, id, stamp),
    ensures
        !expects_image(has_image, None, None, None),
        inline_image(None, None) is None,
        p.image_path is None,
        p.thumbnail_path is None,
{
}

/// An update with every field absent keeps each field of the row as it was,
/// but for the update stamp, which moves forward.
pub proof fn law_empty_update_keeps_fields(
    before: DatabaseView,
    after: DatabaseView,
    id: i32,
    u: UpdatePrompt,
    now: u64,
    p: Prompt,
)
    requires
        before.wf(),
        u.is_empty(),
        update_outcome(before, after, id, u, now, Ok(p)),
    ensures
        before.has_prompt(id),
        p == (Prompt { updated_at: p.updated_at, ..before.prompts[before.prompt_index(id)] }),
        p.updated_at > before.prompts[before.prompt_index(id)].updated_at,
        p.updated_at >= now,
{
    let i = before.prompt_index(id);
    assert(before.prompts[i].updated_at <= before.clock);
}

/// A new tag list replaces the stored one: the row's tags are the new list's
/// text, whatever the row held before.
pub proof fn law_update_replaces_tags(o1: Prompt, n1: Prompt, o2: Prompt, n2: Prompt, u: UpdatePrompt, s1: int, s2: int)
    requires
        (u.tags is Some),
        updated_from(o1, n1, u, s1),
        updated_from(o2, n2, u, s2),
    ensures
        n1.tags@ == tags_text(u.tags),
        n1.tags@ == n2.tags@,
{
}

/// Toggling the favorite flag twice gives back the store as it was, and the
/// second call reports the value the row started with.
pub proof fn law_toggle_twice_restores(
    d0: DatabaseView,
    d1: DatabaseView,
    d2: DatabaseView,
    id: i32,
    r1: Result<bool, StoreError>,
    r2: Result<bool, StoreError>,
)
    requires
        d0.wf(),
        d1.wf(),
        toggle_outcome(d0, d1, id, r1),
        toggle_outcome(d1, d2, id, r2),
    ensures
        d2 == d0,
        d0.has_prompt(id) ==> r2 == Ok::<bool, StoreError>(d0.prompts[d0.prompt_index(id)].is_favorite),
        !d0.has_prompt(id) ==> r1 == Err::<bool, StoreError>(StoreError::NotFound) && r2 == r1,
{
    if d0.has_prompt(id) {
        let i = d0.prompt_index(id);
        let o = d0.prompts[i];
        assert(d1.prompts[i].id == id);
        assert(d1.has_prompt(id));
        let j = d1.prompt_index(id);
        if j < i {
            assert(d1.prompts[j].id < d1.prompts[i].id);
        } else if j > i {
            assert(d1.prompts[i].id < d1.prompts[j].id);
        }
        let f = Prompt { is_favorite: !o.is_favorite, ..o };
        assert(Prompt { is_favorite: !f.is_favorite, ..f } == o);
        assert(d2.prompts =~= d0.prompts);
    }
}

/// A name that some collection has already is refused as a conflict, and
/// the store stays as it was.
pub proof fn law_duplicate_collection_name_conflicts(
    before: DatabaseView,
    after: DatabaseView,
    name: Seq<char>,
    len: nat,
    r: Result<Collection, StoreError>,
)
    requires
        before.has_collection_named(name),
        create_collection_outcome(before, after, name, len, r),
    ensures
        r == Err::<Collection, StoreError>(StoreError::Conflict),
        after == before,
{
}

/// The colour of a new collection depends on the byte length of its name
/// alone: two names of one length get the same colour, whatever the store.
pub proof fn law_collection_color_by_length(
    b1: DatabaseView,
    a1: DatabaseView,
    n1: Seq<char>,
    c1: Collection,
    b2: DatabaseView,
    a2: DatabaseView,
    n2: Seq<char>,
    c2: Collection,
    len: nat,
)
    requires
        create_collection_outcome(b1, a1, n1, len, Ok(c1)),
        create_collection_outcome(b2, a2, n2, len, Ok(c2)),
    ensures
        c1.color@ == c2.color@,
{
}

} // verus!
