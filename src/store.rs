use vstd::prelude::*;
use crate::codec::{serialize_tags, tags_text};
use crate::model::{AssetPaths, Collection, Model, NewPrompt, Prompt, StoreError, UpdatePrompt, clone_text, clone_opt_text};
use crate::text::{text_view, contains_folded, contains_ignore_ascii_case, text_eq, text_less, text_lt, lemma_text_lt_irreflexive, lemma_text_lt_transitive, lemma_text_lt_total};

verus! {

/// The store as its contents: prompt rows in creation order, collections in
/// name order, reference models, and the counters that the next insert and
/// the next write will use.
pub struct DatabaseView {
    pub data_dir: Seq<char>,
    pub prompts: Seq<Prompt>,
    pub collections: Seq<Collection>,
    pub models: Seq<Model>,
    pub next_prompt_id: int,
    pub next_collection_id: int,
    pub clock: int,
}

impl DatabaseView {
    pub open spec fn wf(&self) -> bool {
        &&& 0 < self.next_prompt_id <= i32::MAX
        &&& 0 < self.next_collection_id <= i32::MAX
        &&& 0 <= self.clock <= u64::MAX
        &&& self.prompts.len() < self.next_prompt_id
        &&& forall|i: int|
            0 <= i < self.prompts.len() ==> {
                let p = #[trigger] self.prompts[i];
                &&& 0 < p.id < self.next_prompt_id
                &&& p.created_at <= p.updated_at <= self.clock
                &&& p.image_path is Some == p.thumbnail_path is Some
            }
        &&& forall|i: int, j: int|
            0 <= i < j < self.prompts.len() ==> #[trigger] self.prompts[i].id < #[trigger] self.prompts[j].id
                && self.prompts[i].created_at <= self.prompts[j].created_at
        &&& forall|i: int|
            0 <= i < self.collections.len() ==> {
                let c = #[trigger] self.collections[i];
                &&& 0 < c.id < self.next_collection_id
                &&& c.prompt_count == 0
            }
        &&& forall|i: int, j: int|
            0 <= i < j < self.models.len() ==> text_lt(#[trigger] self.models[i].name@, #[trigger] self.models[j].name@)
        &&& forall|i: int, j: int|
            0 <= i < j < self.collections.len() ==> text_lt(
                #[trigger] self.collections[i].name@,
                #[trigger] self.collections[j].name@,
            )
    }

    /// Whether a prompt row has this id.
    pub open spec fn has_prompt(&self, id: i32) -> bool {
        exists|i: int| 0 <= i < self.prompts.len() && #[trigger] self.prompts[i].id == id
    }

    /// The position of the row with this id (meaningful where `has_prompt`).
    pub open spec fn prompt_index(&self, id: i32) -> int {
        choose|i: int| 0 <= i < self.prompts.len() && #[trigger] self.prompts[i].id == id
    }

    /// Whether a collection has this name.
    pub open spec fn has_collection_named(&self, name: Seq<char>) -> bool {
        exists|i: int| 0 <= i < self.collections.len() && #[trigger] self.collections[i].name@ == name
    }
}

/// The rows for which `keep` holds, newest first.
pub open spec fn newest_first(rows: Seq<Prompt>, keep: spec_fn(Prompt) -> bool) -> Seq<Prompt>
    decreases rows.len(),
{
    if rows.len() == 0 {
        Seq::empty()
    } else {
        let rest = newest_first(rows.drop_last(), keep);
        if keep(rows.last()) {
            seq![rows.last()] + rest
        } else {
            rest
        }
    }
}

/// The listing filter: equality on the model name and on the collection,
/// each only where given.
pub open spec fn listed(p: Prompt, model: Option<Seq<char>>, collection_id: Option<i32>) -> bool {
    &&& (model matches Some(m) ==> p.model@ == m)
    &&& (collection_id matches Some(c) ==> p.collection_id == Some(c))
}

/// The search filter: the query occurs in the title, the prompt text or the
/// stored tags, ASCII letters compared without regard to case.
pub open spec fn matches_query(p: Prompt, q: Seq<char>) -> bool {
    contains_folded(p.title@, q) || contains_folded(p.prompt_text@, q) || contains_folded(p.tags@, q)
}


/// The stamp a write at wall-clock time `now` (seconds since the epoch)
/// gets: `now`, or one past the latest stamp where the clock has not moved
/// beyond it, so that stamps never go back and never repeat.
pub open spec fn next_stamp(clock: int, now: int) -> int {
    if now > clock {
        now
    } else {
        clock + 1
    }
}

/// Whether a stamp can still be given out at `now`.
pub open spec fn stamp_available(clock: int, now: int) -> bool {
    now > clock || clock < u64::MAX
}

/// The row that `create_prompt` writes for `np` with the given id and stamp.
pub open spec fn created_from(p: Prompt, np: NewPrompt, assets: Option<AssetPaths>, id: int, stamp: int) -> bool {
    &&& p.id == id
    &&& p.title == np.title
    &&& p.prompt_text == np.prompt_text
    &&& p.negative_prompt@ == match np.negative_prompt {
        Some(t) => t@,
        None => Seq::<char>::empty(),
    }
    &&& p.model == np.model
    &&& p.image_path == match assets {
        Some(a) => Some(a.image_path),
        None => None,
    }
    &&& p.thumbnail_path == match assets {
        Some(a) => Some(a.thumbnail_path),
        None => None,
    }
    &&& p.dimensions@ == match np.dimensions {
        Some(d) => d@,
        None => "1:1"@,
    }
    &&& p.steps == np.steps
    &&& p.sampler == np.sampler
    &&& p.cfg_scale_bits == np.cfg_scale_bits
    &&& p.seed == np.seed
    &&& p.tags@ == tags_text(np.tags)
    &&& !p.is_favorite
    &&& p.collection_id == np.collection_id
    &&& p.created_at == stamp
    &&& p.updated_at == stamp
}

pub open spec fn pick<T>(new: Option<T>, old: T) -> T {
    match new {
        Some(v) => v,
        None => old,
    }
}

pub open spec fn pick_opt<T>(new: Option<T>, old: Option<T>) -> Option<T> {
    match new {
        Some(v) => Some(v),
        None => old,
    }
}

/// `n` is `o` after the partial update `u` written at `stamp`: each present
/// field overwrites, each absent one is kept, and a new tag list replaces
/// the stored one.
pub open spec fn updated_from(o: Prompt, n: Prompt, u: UpdatePrompt, stamp: int) -> bool {
    &&& n.id == o.id
    &&& n.title == pick(u.title, o.title)
    &&& n.prompt_text == pick(u.prompt_text, o.prompt_text)
    &&& n.negative_prompt == pick(u.negative_prompt, o.negative_prompt)
    &&& n.model == pick(u.model, o.model)
    &&& n.image_path == o.image_path
    &&& n.thumbnail_path == o.thumbnail_path
    &&& n.dimensions == pick(u.dimensions, o.dimensions)
    &&& n.steps == pick_opt(u.steps, o.steps)
    &&& n.sampler == pick_opt(u.sampler, o.sampler)
    &&& n.cfg_scale_bits == pick_opt(u.cfg_scale_bits, o.cfg_scale_bits)
    &&& n.seed == pick_opt(u.seed, o.seed)
    &&& match u.tags {
        Some(t) => n.tags@ == tags_text(Some(t)),
        None => n.tags == o.tags,
    }
    &&& n.is_favorite == pick(u.is_favorite, o.is_favorite)
    &&& n.collection_id == pick_opt(u.collection_id, o.collection_id)
    &&& n.created_at == o.created_at
    &&& n.updated_at == stamp
}

/// `d` with its prompt rows replaced, everything else kept.
pub open spec fn with_prompts(d: DatabaseView, rows: Seq<Prompt>) -> DatabaseView {
    DatabaseView { prompts: rows, ..d }
}

/// What `update_prompt(id, u)` does to the store and returns.
pub open spec fn update_outcome(
    before: DatabaseView,
    after: DatabaseView,
    id: i32,
    u: UpdatePrompt,
    now: u64,
    r: Result<Prompt, StoreError>,
) -> bool {
    if !before.has_prompt(id) {
        r == Err::<Prompt, StoreError>(StoreError::NotFound) && after == before
    } else if !stamp_available(before.clock, now as int) {
        r == Err::<Prompt, StoreError>(StoreError::Exhausted) && after == before
    } else {
        let i = before.prompt_index(id);
        &&& r matches Ok(p)
        &&& updated_from(before.prompts[i], p, u, next_stamp(before.clock, now as int))
        &&& after == DatabaseView {
            prompts: before.prompts.update(i, p),
            clock: next_stamp(before.clock, now as int),
            ..before
        }
    }
}

/// What `toggle_favorite(id)` does to the store and returns.
pub open spec fn toggle_outcome(before: DatabaseView, after: DatabaseView, id: i32, r: Result<bool, StoreError>) -> bool {
    if !before.has_prompt(id) {
        r == Err::<bool, StoreError>(StoreError::NotFound) && after == before
    } else {
        let i = before.prompt_index(id);
        let o = before.prompts[i];
        &&& r == Ok::<bool, StoreError>(!o.is_favorite)
        &&& after == with_prompts(before, before.prompts.update(i, Prompt { is_favorite: !o.is_favorite, ..o }))
    }
}


fn pick_text(new: &Option<String>, old: &String) -> (r: String)
    ensures
        r == pick(*new, *old),
{
    match new {
        Some(t) => clone_text(t),
        None => clone_text(old),
    }
}

fn pick_opt_text(new: &Option<String>, old: &Option<String>) -> (r: Option<String>)
    ensures
        r == pick_opt(*new, *old),
{
    match new {
        Some(t) => Some(clone_text(t)),
        None => clone_opt_text(old),
    }
}


/// The colour a new collection gets: one of six, picked by the byte length
/// of its name.
pub open spec fn palette_color(len: nat) -> Seq<char> {
    let k = len % 6;
    if k == 0 {
        "#8B5CF6"@
    } else if k == 1 {
        "#10B981"@
    } else if k == 2 {
        "#F59E0B"@
    } else if k == 3 {
        "#3B82F6"@
    } else if k == 4 {
        "#EC4899"@
    } else {
        "#EF4444"@
    }
}

/// How many rows belong to the collection `id`.
pub open spec fn prompt_count_in(rows: Seq<Prompt>, id: i32) -> nat
    decreases rows.len(),
{
    if rows.len() == 0 {
        0
    } else {
        prompt_count_in(rows.drop_last(), id) + if rows.last().collection_id == Some(id) {
            1nat
        } else {
            0nat
        }
    }
}

/// The models with the active flag set, in stored order.
pub open spec fn active_models(ms: Seq<Model>) -> Seq<Model>
    decreases ms.len(),
{
    if ms.len() == 0 {
        Seq::empty()
    } else if ms.last().is_active {
        active_models(ms.drop_last()).push(ms.last())
    } else {
        active_models(ms.drop_last())
    }
}

/// The reference models a new store is seeded with, in name order, each with
/// the id it got from the order of seeding: (id, name, short name).
pub open spec fn seeded_model(i: int) -> (int, Seq<char>, Seq<char>) {
    if i == 0 {
        (2, "Chat GPT"@, "GPT"@)
    } else if i == 1 {
        (5, "DALL-E 3"@, "DALL-E"@)
    } else if i == 2 {
        (9, "Firefly"@, "Adobe"@)
    } else if i == 3 {
        (6, "Flux Pro"@, "Flux"@)
    } else if i == 4 {
        (7, "Flux.1"@, "Flux.1"@)
    } else if i == 5 {
        (1, "Gemini"@, "Gemini"@)
    } else if i == 6 {
        (8, "Leonardo AI"@, "Leo"@)
    } else if i == 7 {
        (4, "Midjourney V6"@, "MJ"@)
    } else {
        (3, "Stable Diffusion XL"@, "SDXL"@)
    }
}

pub open spec fn is_seeded_model(m: Model, i: int) -> bool {
    &&& m.id == seeded_model(i).0
    &&& m.name@ == seeded_model(i).1
    &&& m.short_name@ == seeded_model(i).2
    &&& m.is_active
}

/// What `create_collection(name)` does to the store and returns.
pub open spec fn create_collection_outcome(
    before: DatabaseView,
    after: DatabaseView,
    name: Seq<char>,
    name_bytes: nat,
    r: Result<Collection, StoreError>,
) -> bool {
    if before.has_collection_named(name) {
        r == Err::<Collection, StoreError>(StoreError::Conflict) && after == before
    } else if before.next_collection_id == i32::MAX {
        r == Err::<Collection, StoreError>(StoreError::Exhausted) && after == before
    } else {
        &&& r matches Ok(c)
        &&& c.id == before.next_collection_id
        &&& c.name@ == name
        &&& c.icon@ == "folder"@
        &&& c.color@ == palette_color(name_bytes)
        &&& c.prompt_count == 0
        &&& exists|k: int|
            0 <= k <= before.collections.len() && after.collections == before.collections.insert(k, c)
        &&& after == DatabaseView {
            collections: after.collections,
            next_collection_id: before.next_collection_id + 1,
            ..before
        }
    }
}

fn seed_model(id: i32, name: &str, short_name: &str) -> (m: Model)
    ensures
        m.id == id,
        m.name@ == name@,
        m.short_name@ == short_name@,
        m.is_active,
{
    Model { id, name: String::from_str(name), short_name: String::from_str(short_name), is_active: true }
}


/// Names ordered between neighbours are ordered throughout.
proof fn lemma_models_ordered(ms: Seq<Model>)
    requires
        forall|i: int| 0 <= i < ms.len() - 1 ==> text_lt(#[trigger] ms[i].name@, ms[i + 1].name@),
    ensures
        forall|i: int, j: int| 0 <= i < j < ms.len() ==> text_lt(#[trigger] ms[i].name@, #[trigger] ms[j].name@),
    decreases ms.len(),
{
    if ms.len() > 1 {
        let init = ms.drop_last();
        assert forall|i: int| 0 <= i < init.len() - 1 implies text_lt(#[trigger] init[i].name@, init[i + 1].name@) by {
            assert(init[i] == ms[i] && init[i + 1] == ms[i + 1]);
        }
        lemma_models_ordered(init);
        let n = ms.len() - 1;
        assert forall|i: int, j: int| 0 <= i < j < ms.len() implies text_lt(#[trigger] ms[i].name@, #[trigger] ms[j].name@) by {
            if j < n {
                assert(init[i] == ms[i] && init[j] == ms[j]);
            } else if i < n - 1 {
                assert(init[i] == ms[i] && init[n - 1] == ms[n - 1]);
                lemma_text_lt_transitive(ms[i].name@, ms[n - 1].name@, ms[n].name@);
            }
        }
    }
}

/// The active models keep the order of the models they are drawn from.
proof fn lemma_active_models_ordered(ms: Seq<Model>)
    requires
        forall|i: int, j: int| 0 <= i < j < ms.len() ==> text_lt(#[trigger] ms[i].name@, #[trigger] ms[j].name@),
    ensures
        forall|i: int, j: int|
            0 <= i < j < active_models(ms).len() ==> text_lt(
                #[trigger] active_models(ms)[i].name@,
                #[trigger] active_models(ms)[j].name@,
            ),
        forall|i: int| 0 <= i < active_models(ms).len() ==> ms.contains(#[trigger] active_models(ms)[i]),
    decreases ms.len(),
{
    if ms.len() > 0 {
        let init = ms.drop_last();
        assert forall|i: int, j: int| 0 <= i < j < init.len() implies text_lt(#[trigger] init[i].name@, #[trigger] init[j].name@) by {
            assert(init[i] == ms[i] && init[j] == ms[j]);
        }
        lemma_active_models_ordered(init);
        let a = active_models(init);
        assert forall|i: int| 0 <= i < a.len() implies text_lt(#[trigger] a[i].name@, ms.last().name@) by {
            assert(init.contains(a[i]));
            let k = choose|k: int| 0 <= k < init.len() && init[k] == a[i];
            assert(ms[k] == init[k]);
        }
        assert forall|i: int| 0 <= i < a.len() implies ms.contains(#[trigger] a[i]) by {
            assert(init.contains(a[i]));
            let k = choose|k: int| 0 <= k < init.len() && init[k] == a[i];
            assert(ms[k] == init[k]);
        }
        if ms.last().is_active {
            let r = a.push(ms.last());
            assert(active_models(ms) == r);
            assert forall|i: int, j: int| 0 <= i < j < r.len() implies text_lt(#[trigger] r[i].name@, #[trigger] r[j].name@) by {
                if j < a.len() {
                    assert(r[i] == a[i] && r[j] == a[j]);
                } else {
                    assert(r[i] == a[i]);
                }
            }
            assert forall|i: int| 0 <= i < r.len() implies ms.contains(#[trigger] r[i]) by {
                if i < a.len() {
                    assert(r[i] == a[i]);
                } else {
                    assert(ms[ms.len() - 1] == r[i]);
                }
            }
        }
    }
}

fn seeded_models() -> (r: Vec<Model>)
    ensures
        r@.len() == 9,
        forall|i: int| 0 <= i < 9 ==> is_seeded_model(#[trigger] r@[i], i),
        forall|i: int, j: int| 0 <= i < j < r@.len() ==> text_lt(#[trigger] r@[i].name@, #[trigger] r@[j].name@),
{
    let mut models: Vec<Model> = Vec::new();
    models.push(seed_model(2, "Chat GPT", "GPT"));
    models.push(seed_model(5, "DALL-E 3", "DALL-E"));
    models.push(seed_model(9, "Firefly", "Adobe"));
    models.push(seed_model(6, "Flux Pro", "Flux"));
    models.push(seed_model(7, "Flux.1", "Flux.1"));
    models.push(seed_model(1, "Gemini", "Gemini"));
    models.push(seed_model(8, "Leonardo AI", "Leo"));
    models.push(seed_model(4, "Midjourney V6", "MJ"));
    models.push(seed_model(3, "Stable Diffusion XL", "SDXL"));
    proof {
        assert forall|i: int| 0 <= i < 9 implies is_seeded_model(#[trigger] models@[i], i) by {
            if i == 0 {} else if i == 1 {} else if i == 2 {} else if i == 3 {}
            else if i == 4 {} else if i == 5 {} else if i == 6 {} else if i == 7 {} else {}
        }
        reveal_strlit("Chat GPT");
        reveal_strlit("DALL-E 3");
        reveal_strlit("Firefly");
        reveal_strlit("Flux Pro");
        reveal_strlit("Flux.1");
        reveal_strlit("Gemini");
        reveal_strlit("Leonardo AI");
        reveal_strlit("Midjourney V6");
        reveal_strlit("Stable Diffusion XL");
        reveal_with_fuel(text_lt, 6);
        assert forall|i: int| 0 <= i < models@.len() - 1 implies text_lt(#[trigger] models@[i].name@, models@[i + 1].name@) by {
            if i == 0 {} else if i == 1 {} else if i == 2 {} else if i == 3 {}
            else if i == 4 {} else if i == 5 {} else if i == 6 {} else {}
        }
        lemma_models_ordered(models@);
    }
    models
}

fn collection_color(name: &str) -> (r: String)
    ensures
        r@ == palette_color(name.len() as nat),
{
    let k = name.len() % 6;
    if k == 0 {
        String::from_str("#8B5CF6")
    } else if k == 1 {
        String::from_str("#10B981")
    } else if k == 2 {
        String::from_str("#F59E0B")
    } else if k == 3 {
        String::from_str("#3B82F6")
    } else if k == 4 {
        String::from_str("#EC4899")
    } else {
        String::from_str("#EF4444")
    }
}

pub struct Database {
    data_dir: String,
    prompts: Vec<Prompt>,
    collections: Vec<Collection>,
    models: Vec<Model>,
    next_prompt_id: i32,
    next_collection_id: i32,
    clock: u64,
}

impl View for Database {
    type V = DatabaseView;

    closed spec fn view(&self) -> DatabaseView {
        DatabaseView {
            data_dir: self.data_dir@,
            prompts: self.prompts@,
            collections: self.collections@,
            models: self.models@,
            next_prompt_id: self.next_prompt_id as int,
            next_collection_id: self.next_collection_id as int,
            clock: self.clock as int,
        }
    }
}

impl Database {
    pub open spec fn wf(&self) -> bool {
        self@.wf()
    }

    /// The asset root that stored paths are relative to.
    pub fn get_data_dir(&self) -> (r: &String)
        ensures
            r@ == self@.data_dir,
    {
        &self.data_dir
    }

    fn position_of(&self, id: i32) -> (r: Option<usize>)
        requires
            self.wf(),
        ensures
            match r {
                Some(i) => self@.has_prompt(id) && i == self@.prompt_index(id) && i
                    < self@.prompts.len(),
                None => !self@.has_prompt(id),
            },
    {
        let n = self.prompts.len();
        let mut i: usize = 0;
        while i < n
            invariant
                self.wf(),
                n == self.prompts@.len(),
                i <= n,
                forall|j: int| 0 <= j < i ==> #[trigger] self.prompts@[j].id != id,
            decreases n - i,
        {
            if self.prompts[i].id == id {
                proof {
                    assert(self@.prompts[i as int].id == id);
                    let k = self@.prompt_index(id);
                    assert(0 <= k < n && self@.prompts[k].id == id);
                    if k < i {
                        assert(self@.prompts[k].id < self@.prompts[i as int].id);
                    } else if k > i {
                        assert(self@.prompts[i as int].id < self@.prompts[k].id);
                    }
                }
                return Some(i);
            }
            i = i + 1;
        }
        proof {
            assert forall|j: int| 0 <= j < self@.prompts.len() implies #[trigger] self@.prompts[j].id != id by {
                assert(self.prompts@[j].id != id);
            }
        }
        None
    }

    /// The row with this id; `NotFound` where there is none.
    pub fn get_prompt_by_id(&self, id: i32) -> (r: Result<Prompt, StoreError>)
        requires
            self.wf(),
        ensures
            match r {
                Ok(p) => self@.has_prompt(id) && p == self@.prompts[self@.prompt_index(id)],
                Err(e) => e == StoreError::NotFound && !self@.has_prompt(id),
            },
    {
        match self.position_of(id) {
            Some(i) => Ok(self.prompts[i].duplicate()),
            None => Err(StoreError::NotFound),
        }
    }

    /// The rows matching both optional filters (model name, collection),
    /// newest first.
    pub fn get_all_prompts(&self, filter: Option<&str>, collection_id: Option<i32>) -> (r: Vec<Prompt>)
        ensures
            r@ == newest_first(self@.prompts, |p: Prompt| listed(p, text_view(filter), collection_id)),
    {
        let ghost keep = |p: Prompt| listed(p, text_view(filter), collection_id);
        let mut out: Vec<Prompt> = Vec::new();
        let mut i: usize = self.prompts.len();
        proof {
            assert(self.prompts@.subrange(0, i as int) =~= self.prompts@);
            assert(out@ + newest_first(self.prompts@, keep) =~= newest_first(self.prompts@, keep));
        }
        while i > 0
            invariant
                i <= self.prompts@.len(),
                keep == (|p: Prompt| listed(p, text_view(filter), collection_id)),
                newest_first(self.prompts@, keep) == out@ + newest_first(
                    self.prompts@.subrange(0, i as int),
                    keep,
                ),
            decreases i,
        {
            let ghost before = self.prompts@.subrange(0, i as int);
            let p = &self.prompts[i - 1];
            let mut take = true;
            if let Some(m) = filter {
                if !text_eq(p.model.as_str(), m) {
                    take = false;
                }
            }
            if let Some(c) = collection_id {
                if p.collection_id != Some(c) {
                    take = false;
                }
            }
            proof {
                assert(before.drop_last() =~= self.prompts@.subrange(0, i - 1));
                assert(before.last() == *p);
                assert(take == keep(*p));
            }
            if take {
                let q = p.duplicate();
                proof {
                    assert(out@.push(q) + newest_first(self.prompts@.subrange(0, i - 1), keep) =~= out@
                        + newest_first(before, keep));
                }
                out.push(q);
            }
            i = i - 1;
        }
        proof {
            assert(out@ + Seq::<Prompt>::empty() =~= out@);
        }
        out
    }

    /// The rows whose title, prompt text or stored tags contain the query,
    /// ASCII letters compared without regard to case, newest first.
    pub fn search_prompts(&self, query: &str) -> (r: Vec<Prompt>)
        ensures
            r@ == newest_first(self@.prompts, |p: Prompt| matches_query(p, query@)),
    {
        let ghost keep = |p: Prompt| matches_query(p, query@);
        let mut out: Vec<Prompt> = Vec::new();
        let mut i: usize = self.prompts.len();
        proof {
            assert(self.prompts@.subrange(0, i as int) =~= self.prompts@);
            assert(out@ + newest_first(self.prompts@, keep) =~= newest_first(self.prompts@, keep));
        }
        while i > 0
            invariant
                i <= self.prompts@.len(),
                keep == (|p: Prompt| matches_query(p, query@)),
                newest_first(self.prompts@, keep) == out@ + newest_first(
                    self.prompts@.subrange(0, i as int),
                    keep,
                ),
            decreases i,
        {
            let ghost before = self.prompts@.subrange(0, i as int);
            let p = &self.prompts[i - 1];
            let take = contains_ignore_ascii_case(p.title.as_str(), query)
                || contains_ignore_ascii_case(p.prompt_text.as_str(), query)
                || contains_ignore_ascii_case(p.tags.as_str(), query);
            proof {
                assert(before.drop_last() =~= self.prompts@.subrange(0, i - 1));
                assert(before.last() == *p);
                assert(take == keep(*p));
            }
            if take {
                let q = p.duplicate();
                proof {
                    assert(out@.push(q) + newest_first(self.prompts@.subrange(0, i - 1), keep) =~= out@
                        + newest_first(before, keep));
                }
                out.push(q);
            }
            i = i - 1;
        }
        proof {
            assert(out@ + Seq::<Prompt>::empty() =~= out@);
        }
        out
    }

    /// Appends a row for `prompt` with the next id, stamped at `now` (seconds
    /// since the epoch; see `next_stamp`), and hands it back. The asset paths
    /// come as a pair or not at all.
    pub fn create_prompt(&mut self, prompt: &NewPrompt, assets: Option<AssetPaths>, now: u64) -> (r: Result<Prompt, StoreError>)
        requires
            old(self).wf(),
        ensures
            final(self).wf(),
            match r {
                Ok(p) => {
                    &&& old(self)@.next_prompt_id < i32::MAX && stamp_available(old(self)@.clock, now as int)
                    &&& created_from(p, *prompt, assets, old(self)@.next_prompt_id, next_stamp(old(self)@.clock, now as int))
                    &&& final(self)@ == DatabaseView {
                        prompts: old(self)@.prompts.push(p),
                        next_prompt_id: old(self)@.next_prompt_id + 1,
                        clock: next_stamp(old(self)@.clock, now as int),
                        ..old(self)@
                    }
                },
                Err(e) => {
                    &&& e == StoreError::Exhausted
                    &&& old(self)@.next_prompt_id == i32::MAX || !stamp_available(old(self)@.clock, now as int)
                    &&& final(self)@ == old(self)@
                },
            },
    {
        if self.next_prompt_id == i32::MAX || (now <= self.clock && self.clock == u64::MAX) {
            return Err(StoreError::Exhausted);
        }
        let stamp = if now > self.clock {
            now
        } else {
            self.clock + 1
        };
        let (image_path, thumbnail_path) = match assets {
            Some(a) => (Some(a.image_path), Some(a.thumbnail_path)),
            None => (None, None),
        };
        let row = Prompt {
            id: self.next_prompt_id,
            title: clone_text(&prompt.title),
            prompt_text: clone_text(&prompt.prompt_text),
            negative_prompt: match &prompt.negative_prompt {
                Some(t) => clone_text(t),
                None => String::new(),
            },
            model: clone_text(&prompt.model),
            image_path,
            thumbnail_path,
            dimensions: match &prompt.dimensions {
                Some(d) => clone_text(d),
                None => String::from_str("1:1"),
            },
            steps: prompt.steps,
            sampler: clone_opt_text(&prompt.sampler),
            cfg_scale_bits: prompt.cfg_scale_bits,
            seed: clone_opt_text(&prompt.seed),
            tags: serialize_tags(&prompt.tags),
            is_favorite: false,
            collection_id: prompt.collection_id,
            created_at: stamp,
            updated_at: stamp,
        };
        let out = row.duplicate();
        self.prompts.push(row);
        self.next_prompt_id = self.next_prompt_id + 1;
        self.clock = stamp;
        proof {
            let v = self@;
            assert forall|i: int, j: int| 0 <= i < j < v.prompts.len() implies #[trigger] v.prompts[i].id
                < #[trigger] v.prompts[j].id && v.prompts[i].created_at <= v.prompts[j].created_at by {
                if j == v.prompts.len() - 1 {
                    assert(old(self)@.prompts[i].id < old(self)@.next_prompt_id);
                    assert(old(self)@.prompts[i].updated_at <= old(self)@.clock);
                } else {
                    assert(old(self)@.prompts[i] == v.prompts[i]);
                    assert(old(self)@.prompts[j] == v.prompts[j]);
                }
            }
            assert forall|i: int| 0 <= i < v.prompts.len() implies {
                let p = #[trigger] v.prompts[i];
                &&& 0 < p.id < v.next_prompt_id
                &&& p.created_at <= p.updated_at <= v.clock
                &&& p.image_path is Some == p.thumbnail_path is Some
            } by {
                if i < v.prompts.len() - 1 {
                    assert(old(self)@.prompts[i] == v.prompts[i]);
                }
            }
        }
        Ok(out)
    }

    /// Applies a partial update to the row with this id and stamps it at
    /// `now` (see `next_stamp`); `NotFound` where there is no such row.
    pub fn update_prompt(&mut self, id: i32, prompt: &UpdatePrompt, now: u64) -> (r: Result<Prompt, StoreError>)
        requires
            old(self).wf(),
        ensures
            final(self).wf(),
            update_outcome(old(self)@, final(self)@, id, *prompt, now, r),
    {
        let i = match self.position_of(id) {
            Some(i) => i,
            None => return Err(StoreError::NotFound),
        };
        if now <= self.clock && self.clock == u64::MAX {
            return Err(StoreError::Exhausted);
        }
        let stamp = if now > self.clock {
            now
        } else {
            self.clock + 1
        };
        let o = &self.prompts[i];
        let tags = match &prompt.tags {
            Some(t) => {
                let copy = t.clone();
                proof {
                    assert(copy@ =~= t@);
                }
                serialize_tags(&Some(copy))
            },
            None => clone_text(&o.tags),
        };
        let row = Prompt {
            id: o.id,
            title: pick_text(&prompt.title, &o.title),
            prompt_text: pick_text(&prompt.prompt_text, &o.prompt_text),
            negative_prompt: pick_text(&prompt.negative_prompt, &o.negative_prompt),
            model: pick_text(&prompt.model, &o.model),
            image_path: clone_opt_text(&o.image_path),
            thumbnail_path: clone_opt_text(&o.thumbnail_path),
            dimensions: pick_text(&prompt.dimensions, &o.dimensions),
            steps: match prompt.steps {
                Some(v) => Some(v),
                None => o.steps,
            },
            sampler: pick_opt_text(&prompt.sampler, &o.sampler),
            cfg_scale_bits: match prompt.cfg_scale_bits {
                Some(v) => Some(v),
                None => o.cfg_scale_bits,
            },
            seed: pick_opt_text(&prompt.seed, &o.seed),
            tags,
            is_favorite: match prompt.is_favorite {
                Some(v) => v,
                None => o.is_favorite,
            },
            collection_id: match prompt.collection_id {
                Some(v) => Some(v),
                None => o.collection_id,
            },
            created_at: o.created_at,
            updated_at: stamp,
        };
        let out = row.duplicate();
        self.prompts.set(i, row);
        self.clock = stamp;
        proof {
            let v = self@;
            let w = old(self)@;
            assert forall|a: int, b: int| 0 <= a < b < v.prompts.len() implies #[trigger] v.prompts[a].id
                < #[trigger] v.prompts[b].id && v.prompts[a].created_at <= v.prompts[b].created_at by {
                assert(w.prompts[a].id < w.prompts[b].id);
            }
            assert forall|a: int| 0 <= a < v.prompts.len() implies {
                let p = #[trigger] v.prompts[a];
                &&& 0 < p.id < v.next_prompt_id
                &&& p.created_at <= p.updated_at <= v.clock
                &&& p.image_path is Some == p.thumbnail_path is Some
            } by {
                assert(w.prompts[a].created_at <= w.prompts[a].updated_at);
            }
            assert(v == DatabaseView { prompts: w.prompts.update(i as int, out), clock: stamp as int, ..w });
        }
        Ok(out)
    }

    /// Removes the row with this id, handing back the removed row so that
    /// its asset files can be cleaned up; no row is no error.
    pub fn delete_prompt(&mut self, id: i32) -> (r: Option<Prompt>)
        requires
            old(self).wf(),
        ensures
            final(self).wf(),
            match r {
                Some(p) => {
                    &&& old(self)@.has_prompt(id)
                    &&& p == old(self)@.prompts[old(self)@.prompt_index(id)]
                    &&& final(self)@ == with_prompts(old(self)@, old(self)@.prompts.remove(old(self)@.prompt_index(id)))
                },
                None => !old(self)@.has_prompt(id) && final(self)@ == old(self)@,
            },
    {
        match self.position_of(id) {
            Some(i) => {
                let p = self.prompts.remove(i);
                proof {
                    let v = self@;
                    let w = old(self)@;
                    assert forall|a: int, b: int| 0 <= a < b < v.prompts.len() implies #[trigger] v.prompts[a].id
                        < #[trigger] v.prompts[b].id && v.prompts[a].created_at <= v.prompts[b].created_at by {
                        let a2 = if a < i { a } else { a + 1 };
                        let b2 = if b < i { b } else { b + 1 };
                        assert(v.prompts[a] == w.prompts[a2]);
                        assert(v.prompts[b] == w.prompts[b2]);
                        assert(w.prompts[a2].id < w.prompts[b2].id);
                    }
                    assert forall|a: int| 0 <= a < v.prompts.len() implies {
                        let p = #[trigger] v.prompts[a];
                        &&& 0 < p.id < v.next_prompt_id
                        &&& p.created_at <= p.updated_at <= v.clock
                        &&& p.image_path is Some == p.thumbnail_path is Some
                    } by {
                        let a2 = if a < i { a } else { a + 1 };
                        assert(v.prompts[a] == w.prompts[a2]);
                    }
                    assert(v == with_prompts(w, w.prompts.remove(i as int)));
                }
                Some(p)
            },
            None => None,
        }
    }

    /// Flips the favorite flag of the row with this id and returns the new
    /// value; `NotFound` where there is no such row.
    pub fn toggle_favorite(&mut self, id: i32) -> (r: Result<bool, StoreError>)
        requires
            old(self).wf(),
        ensures
            final(self).wf(),
            toggle_outcome(old(self)@, final(self)@, id, r),
    {
        let i = match self.position_of(id) {
            Some(i) => i,
            None => return Err(StoreError::NotFound),
        };
        let mut row = self.prompts[i].duplicate();
        let new_value = !row.is_favorite;
        row.is_favorite = new_value;
        self.prompts.set(i, row);
        proof {
            let v = self@;
            let w = old(self)@;
            assert forall|a: int, b: int| 0 <= a < b < v.prompts.len() implies #[trigger] v.prompts[a].id
                < #[trigger] v.prompts[b].id && v.prompts[a].created_at <= v.prompts[b].created_at by {
                assert(w.prompts[a].id < w.prompts[b].id);
            }
            assert forall|a: int| 0 <= a < v.prompts.len() implies {
                let p = #[trigger] v.prompts[a];
                &&& 0 < p.id < v.next_prompt_id
                &&& p.created_at <= p.updated_at <= v.clock
                &&& p.image_path is Some == p.thumbnail_path is Some
            } by {
                assert(w.prompts[a].created_at <= w.prompts[a].updated_at);
            }
            let o = w.prompts[i as int];
            assert(v.prompts =~= w.prompts.update(i as int, Prompt { is_favorite: !o.is_favorite, ..o }));
            assert(v == with_prompts(w, v.prompts));
        }
        Ok(new_value)
    }

    /// An empty store rooted at `data_dir`, seeded with the reference models.
    pub fn new(data_dir: String) -> (r: Database)
        ensures
            r.wf(),
            r@.data_dir == data_dir@,
            r@.prompts.len() == 0,
            r@.collections.len() == 0,
            r@.next_prompt_id == 1,
            r@.next_collection_id == 1,
            r@.clock == 0,
            r@.models.len() == 9,
            forall|i: int| 0 <= i < 9 ==> is_seeded_model(#[trigger] r@.models[i], i),
    {
        Database {
            data_dir,
            prompts: Vec::new(),
            collections: Vec::new(),
            models: seeded_models(),
            next_prompt_id: 1,
            next_collection_id: 1,
            clock: 0,
        }
    }

    /// A store holding rows loaded from durable storage, with the reference
    /// models seeded afresh; `None` where the rows break the store's
    /// invariant (ids and stamps out of order or out of range, an image path
    /// without a thumbnail path, collection names not strictly in order).
    pub fn restore(
        data_dir: String,
        prompts: Vec<Prompt>,
        collections: Vec<Collection>,
        next_prompt_id: i32,
        next_collection_id: i32,
        clock: u64,
    ) -> (r: Option<Database>)
        ensures
            match r {
                Some(d) => {
                    &&& d.wf()
                    &&& d@.data_dir == data_dir@
                    &&& d@.prompts == prompts@
                    &&& d@.collections == collections@
                    &&& d@.next_prompt_id == next_prompt_id
                    &&& d@.next_collection_id == next_collection_id
                    &&& d@.clock == clock
                    &&& d@.models.len() == 9
                    &&& forall|i: int| 0 <= i < 9 ==> is_seeded_model(#[trigger] d@.models[i], i)
                },
                None => !(DatabaseView {
                    data_dir: data_dir@,
                    prompts: prompts@,
                    collections: collections@,
                    models: Seq::empty(),
                    next_prompt_id: next_prompt_id as int,
                    next_collection_id: next_collection_id as int,
                    clock: clock as int,
                }).wf(),
            },
    {
        let ghost cand = DatabaseView {
            data_dir: data_dir@,
            prompts: prompts@,
            collections: collections@,
            models: Seq::empty(),
            next_prompt_id: next_prompt_id as int,
            next_collection_id: next_collection_id as int,
            clock: clock as int,
        };
        if next_prompt_id <= 0 || next_collection_id <= 0 || prompts.len() >= next_prompt_id as usize {
            return None;
        }
        let n = prompts.len();
        let mut k: usize = 0;
        while k < n
            invariant
                n == prompts@.len(),
                k <= n,
                0 < next_prompt_id,
                forall|i: int|
                    0 <= i < k ==> {
                        let p = #[trigger] prompts@[i];
                        &&& 0 < p.id < next_prompt_id
                        &&& p.created_at <= p.updated_at <= clock
                        &&& p.image_path is Some == p.thumbnail_path is Some
                    },
                forall|i: int, j: int|
                    0 <= i < j < k ==> #[trigger] prompts@[i].id < #[trigger] prompts@[j].id
                        && prompts@[i].created_at <= prompts@[j].created_at,
            decreases n - k,
        {
            let p = &prompts[k];
            if !(0 < p.id && p.id < next_prompt_id && p.created_at <= p.updated_at && p.updated_at <= clock
                && p.image_path.is_some() == p.thumbnail_path.is_some()) {
                return None;
            }
            if k > 0 && !(prompts[k - 1].id < p.id && prompts[k - 1].created_at <= p.created_at) {
                return None;
            }
            k = k + 1;
        }
        let m = collections.len();
        let mut k: usize = 0;
        while k < m
            invariant
                m == collections@.len(),
                k <= m,
                cand == (DatabaseView {
                    data_dir: data_dir@,
                    prompts: prompts@,
                    collections: collections@,
                    models: Seq::empty(),
                    next_prompt_id: next_prompt_id as int,
                    next_collection_id: next_collection_id as int,
                    clock: clock as int,
                }),
                0 < next_collection_id,
                0 < next_prompt_id,
                prompts@.len() < next_prompt_id,
                forall|i: int|
                    0 <= i < prompts@.len() ==> {
                        let p = #[trigger] prompts@[i];
                        &&& 0 < p.id < next_prompt_id
                        &&& p.created_at <= p.updated_at <= clock
                        &&& p.image_path is Some == p.thumbnail_path is Some
                    },
                forall|i: int, j: int|
                    0 <= i < j < prompts@.len() ==> #[trigger] prompts@[i].id < #[trigger] prompts@[j].id
                        && prompts@[i].created_at <= prompts@[j].created_at,
                forall|i: int|
                    0 <= i < k ==> {
                        let c = #[trigger] collections@[i];
                        &&& 0 < c.id < next_collection_id
                        &&& c.prompt_count == 0
                    },
                forall|i: int, j: int|
                    0 <= i < j < k ==> text_lt(#[trigger] collections@[i].name@, #[trigger] collections@[j].name@),
            decreases m - k,
        {
            let c = &collections[k];
            if !(0 < c.id && c.id < next_collection_id && c.prompt_count == 0) {
                assert(cand.collections[k as int] == collections@[k as int]);
                return None;
            }
            if k > 0 && !text_less(collections[k - 1].name.as_str(), c.name.as_str()) {
                assert(!text_lt(cand.collections[k - 1].name@, cand.collections[k as int].name@));
                return None;
            }
            proof {
                assert forall|i: int| 0 <= i < k implies text_lt(#[trigger] collections@[i].name@, collections@[k as int].name@) by {
                    if i < k - 1 {
                        lemma_text_lt_transitive(collections@[i].name@, collections@[k - 1].name@, collections@[k as int].name@);
                    }
                }
            }
            k = k + 1;
        }
        let d = Database { data_dir, prompts, collections, models: seeded_models(), next_prompt_id, next_collection_id, clock };
        Some(d)
    }

    /// Every collection in name order, each with the number of prompts that
    /// belong to it.
    pub fn get_collections(&self) -> (r: Vec<Collection>)
        requires
            self.wf(),
        ensures
            r@.len() == self@.collections.len(),
            forall|i: int| 0 <= i < r@.len() ==> {
                let c = self@.collections[i];
                #[trigger] r@[i] == Collection { prompt_count: prompt_count_in(self@.prompts, c.id) as i32, ..c }
            },
            forall|i: int, j: int| 0 <= i < j < r@.len() ==> text_lt(#[trigger] r@[i].name@, #[trigger] r@[j].name@),
    {
        let mut out: Vec<Collection> = Vec::new();
        let n = self.collections.len();
        let mut k: usize = 0;
        while k < n
            invariant
                self.wf(),
                n == self@.collections.len(),
                k <= n,
                out@.len() == k,
                forall|i: int| 0 <= i < k ==> {
                    let c = self@.collections[i];
                    #[trigger] out@[i] == Collection { prompt_count: prompt_count_in(self@.prompts, c.id) as i32, ..c }
                },
            decreases n - k,
        {
            let c = &self.collections[k];
            let m = self.prompts.len();
            let mut count: i32 = 0;
            let mut j: usize = 0;
            while j < m
                invariant
                    self.wf(),
                    m == self@.prompts.len(),
                    j <= m,
                    count as int == prompt_count_in(self@.prompts.subrange(0, j as int), c.id),
                    count <= j,
                decreases m - j,
            {
                proof {
                    assert(self@.prompts.subrange(0, j + 1).drop_last() =~= self@.prompts.subrange(0, j as int));
                }
                if self.prompts[j].collection_id == Some(c.id) {
                    count = count + 1;
                }
                j = j + 1;
            }
            proof {
                assert(self@.prompts.subrange(0, m as int) =~= self@.prompts);
            }
            let mut d = c.duplicate();
            d.prompt_count = count;
            out.push(d);
            k = k + 1;
        }
        proof {
            assert forall|i: int, j: int| 0 <= i < j < out@.len() implies text_lt(#[trigger] out@[i].name@, #[trigger] out@[j].name@) by {
                assert(out@[i].name == self@.collections[i].name);
                assert(out@[j].name == self@.collections[j].name);
            }
        }
        out
    }

    /// Adds a collection, kept in name order; a name already present is a
    /// conflict.
    pub fn create_collection(&mut self, name: &str) -> (r: Result<Collection, StoreError>)
        requires
            old(self).wf(),
        ensures
            final(self).wf(),
            create_collection_outcome(old(self)@, final(self)@, name@, name.len() as nat, r),
    {
        let n = self.collections.len();
        let mut k: usize = 0;
        while k < n && text_less(self.collections[k].name.as_str(), name)
            invariant
                self.wf(),
                n == self@.collections.len(),
                k <= n,
                forall|i: int| 0 <= i < k ==> text_lt(#[trigger] self@.collections[i].name@, name@),
            decreases n - k,
        {
            k = k + 1;
        }
        proof {
            assert forall|i: int| k <= i < n implies !text_lt(#[trigger] self@.collections[i].name@, name@) by {
                if i > k && text_lt(self@.collections[i].name@, name@) {
                    lemma_text_lt_transitive(self@.collections[k as int].name@, self@.collections[i].name@, name@);
                }
            }
        }
        if k < n && text_eq(self.collections[k].name.as_str(), name) {
            return Err(StoreError::Conflict);
        }
        proof {
            assert forall|i: int| 0 <= i < n implies #[trigger] self@.collections[i].name@ != name@ by {
                if i < k {
                    lemma_text_lt_irreflexive(name@);
                } else if i > k {
                    assert(text_lt(self@.collections[k as int].name@, self@.collections[i].name@));
                    if self@.collections[i].name@ == name@ {
                        lemma_text_lt_total(self@.collections[k as int].name@, name@);
                    }
                }
            }
        }
        if self.next_collection_id == i32::MAX {
            return Err(StoreError::Exhausted);
        }
        let c = Collection {
            id: self.next_collection_id,
            name: String::from_str(name),
            icon: String::from_str("folder"),
            color: collection_color(name),
            prompt_count: 0,
        };
        let out = c.duplicate();
        self.collections.insert(k, c);
        self.next_collection_id = self.next_collection_id + 1;
        proof {
            let v = self@;
            let w = old(self)@;
            assert(v.collections == w.collections.insert(k as int, out));
            assert forall|a: int, b: int| 0 <= a < b < v.collections.len() implies text_lt(
                #[trigger] v.collections[a].name@,
                #[trigger] v.collections[b].name@,
            ) by {
                if b < k {
                } else if b == k {
                } else if a < k {
                    assert(v.collections[b] == w.collections[b - 1]);
                    lemma_text_lt_total(w.collections[b - 1].name@, name@);
                    lemma_text_lt_transitive(v.collections[a].name@, name@, v.collections[b].name@);
                } else if a == k {
                    assert(v.collections[b] == w.collections[b - 1]);
                    lemma_text_lt_total(w.collections[b - 1].name@, name@);
                } else {
                    assert(v.collections[a] == w.collections[a - 1]);
                    assert(v.collections[b] == w.collections[b - 1]);
                }
            }
            assert forall|a: int| 0 <= a < v.collections.len() implies {
                let c = #[trigger] v.collections[a];
                &&& 0 < c.id < v.next_collection_id
                &&& c.prompt_count == 0
            } by {
                if a < k {
                    assert(v.collections[a] == w.collections[a]);
                } else if a > k {
                    assert(v.collections[a] == w.collections[a - 1]);
                }
            }
            assert(!w.has_collection_named(name@));
            assert(v == DatabaseView { collections: v.collections, next_collection_id: w.next_collection_id + 1, ..w });
            assert(out.icon@ == "folder"@);
            assert(0 <= k <= w.collections.len() && v.collections == w.collections.insert(k as int, out));
            assert(exists|k2: int| 0 <= k2 <= w.collections.len() && v.collections == w.collections.insert(k2, out));
            assert(create_collection_outcome(w, v, name@, name.len() as nat, Ok(out)));
        }
        Ok(out)
    }

    /// The active reference models, in name order.
    pub fn get_models(&self) -> (r: Vec<Model>)
        ensures
            r@ == active_models(self@.models),
            self.wf() ==> forall|i: int, j: int|
                0 <= i < j < r@.len() ==> text_lt(#[trigger] r@[i].name@, #[trigger] r@[j].name@),
    {
        let mut out: Vec<Model> = Vec::new();
        let n = self.models.len();
        let mut k: usize = 0;
        while k < n
            invariant
                n == self@.models.len(),
                k <= n,
                out@ == active_models(self@.models.subrange(0, k as int)),
            decreases n - k,
        {
            proof {
                assert(self@.models.subrange(0, k + 1).drop_last() =~= self@.models.subrange(0, k as int));
            }
            if self.models[k].is_active {
                out.push(self.models[k].duplicate());
            }
            k = k + 1;
        }
        proof {
            assert(self@.models.subrange(0, n as int) =~= self@.models);
            if self.wf() {
                lemma_active_models_ordered(self@.models);
            }
        }
        out
    }

    /// The id the next prompt will get.
    pub fn next_prompt_id(&self) -> (r: i32)
        ensures
            r == self@.next_prompt_id,
    {
        self.next_prompt_id
    }

    /// The id the next collection will get.
    pub fn next_collection_id(&self) -> (r: i32)
        ensures
            r == self@.next_collection_id,
    {
        self.next_collection_id
    }

    /// The stamp of the latest write.
    pub fn clock(&self) -> (r: u64)
        ensures
            r == self@.clock,
    {
        self.clock
    }

    /// A copy of the whole store, kept to put back should durable storage
    /// refuse a change.
    pub fn duplicate(&self) -> (r: Database)
        ensures
            r@ == self@,
    {
        let mut prompts: Vec<Prompt> = Vec::new();
        let mut k: usize = 0;
        while k < self.prompts.len()
            invariant
                k <= self.prompts@.len(),
                prompts@ == self.prompts@.subrange(0, k as int),
            decreases self.prompts@.len() - k,
        {
            prompts.push(self.prompts[k].duplicate());
            proof {
                assert(prompts@ =~= self.prompts@.subrange(0, k + 1));
            }
            k = k + 1;
        }
        let mut collections: Vec<Collection> = Vec::new();
        let mut k: usize = 0;
        while k < self.collections.len()
            invariant
                k <= self.collections@.len(),
                collections@ == self.collections@.subrange(0, k as int),
            decreases self.collections@.len() - k,
        {
            collections.push(self.collections[k].duplicate());
            proof {
                assert(collections@ =~= self.collections@.subrange(0, k + 1));
            }
            k = k + 1;
        }
        let mut models: Vec<Model> = Vec::new();
        let mut k: usize = 0;
        while k < self.models.len()
            invariant
                k <= self.models@.len(),
                models@ == self.models@.subrange(0, k as int),
            decreases self.models@.len() - k,
        {
            models.push(self.models[k].duplicate());
            proof {
                assert(models@ =~= self.models@.subrange(0, k + 1));
            }
            k = k + 1;
        }
        proof {
            assert(prompts@ =~= self.prompts@);
            assert(collections@ =~= self.collections@);
            assert(models@ =~= self.models@);
        }
        Database {
            data_dir: clone_text(&self.data_dir),
            prompts,
            collections,
            models,
            next_prompt_id: self.next_prompt_id,
            next_collection_id: self.next_collection_id,
            clock: self.clock,
        }
    }
}

} // verus!
