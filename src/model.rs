use vstd::prelude::*;

verus! {

/// A saved prompt. `cfg_scale_bits` holds the IEEE-754 bit pattern of the
/// guidance scale, so that the record carries it without loss.
#[derive(Debug, Clone)]
pub struct Prompt {
    pub id: i32,
    pub title: String,
    pub prompt_text: String,
    pub negative_prompt: String,
    pub model: String,
    pub image_path: Option<String>,
    pub thumbnail_path: Option<String>,
    pub dimensions: String,
    pub steps: Option<i32>,
    pub sampler: Option<String>,
    pub cfg_scale_bits: Option<u64>,
    pub seed: Option<String>,
    /// The tag list in its stored text form (a JSON array of strings).
    pub tags: String,
    pub is_favorite: bool,
    pub collection_id: Option<i32>,
    pub created_at: u64,
    pub updated_at: u64,
}

/// The fields a caller supplies for a new prompt.
#[derive(Debug, Clone)]
pub struct NewPrompt {
    pub title: String,
    pub prompt_text: String,
    pub negative_prompt: Option<String>,
    pub model: String,
    pub dimensions: Option<String>,
    pub steps: Option<i32>,
    pub sampler: Option<String>,
    pub cfg_scale_bits: Option<u64>,
    pub seed: Option<String>,
    pub tags: Option<Vec<String>>,
    pub collection_id: Option<i32>,
}

/// A partial update: each present field overwrites, each absent one is kept.
#[derive(Debug, Clone)]
pub struct UpdatePrompt {
    pub title: Option<String>,
    pub prompt_text: Option<String>,
    pub negative_prompt: Option<String>,
    pub model: Option<String>,
    pub dimensions: Option<String>,
    pub steps: Option<i32>,
    pub sampler: Option<String>,
    pub cfg_scale_bits: Option<u64>,
    pub seed: Option<String>,
    pub tags: Option<Vec<String>>,
    pub is_favorite: Option<bool>,
    pub collection_id: Option<i32>,
}

#[derive(Debug, Clone)]
pub struct Collection {
    pub id: i32,
    pub name: String,
    pub icon: String,
    pub color: String,
    pub prompt_count: i32,
}

#[derive(Debug, Clone)]
pub struct Model {
    pub id: i32,
    pub name: String,
    pub short_name: String,
    pub is_active: bool,
}

/// Where an ingested image and its preview were written, relative to the
/// asset root.
#[derive(Debug, Clone)]
pub struct AssetPaths {
    pub image_path: String,
    pub thumbnail_path: String,
}

#[derive(Debug, Clone, Copy, PartialEq, Eq, Structural)]
pub enum StoreError {
    /// No prompt has the id asked for.
    NotFound,
    /// A collection of that name exists already.
    Conflict,
    /// The id space or the revision counter is used up.
    Exhausted,
}

impl StoreError {
    pub fn message(&self) -> (r: String)
        ensures
            r@ == match self {
                StoreError::NotFound => "prompt not found"@,
                StoreError::Conflict => "a collection with that name already exists"@,
                StoreError::Exhausted => "the store is full"@,
            },
    {
        match self {
            StoreError::NotFound => String::from_str("prompt not found"),
            StoreError::Conflict => String::from_str("a collection with that name already exists"),
            StoreError::Exhausted => String::from_str("the store is full"),
        }
    }
}

pub fn clone_text(s: &String) -> (r: String)
    ensures
        r == *s,
{
    s.clone()
}

pub fn clone_opt_text(s: &Option<String>) -> (r: Option<String>)
    ensures
        r == *s,
{
    match s {
        Some(t) => Some(t.clone()),
        None => None,
    }
}

impl Prompt {
    /// A copy of the record, field for field.
    pub fn duplicate(&self) -> (r: Prompt)
        ensures
            r == *self,
    {
        Prompt {
            id: self.id,
            title: clone_text(&self.title),
            prompt_text: clone_text(&self.prompt_text),
            negative_prompt: clone_text(&self.negative_prompt),
            model: clone_text(&self.model),
            image_path: clone_opt_text(&self.image_path),
            thumbnail_path: clone_opt_text(&self.thumbnail_path),
            dimensions: clone_text(&self.dimensions),
            steps: self.steps,
            sampler: clone_opt_text(&self.sampler),
            cfg_scale_bits: self.cfg_scale_bits,
            seed: clone_opt_text(&self.seed),
            tags: clone_text(&self.tags),
            is_favorite: self.is_favorite,
            collection_id: self.collection_id,
            created_at: self.created_at,
            updated_at: self.updated_at,
        }
    }
}

impl Collection {
    pub fn duplicate(&self) -> (r: Collection)
        ensures
            r == *self,
    {
        Collection {
            id: self.id,
            name: clone_text(&self.name),
            icon: clone_text(&self.icon),
            color: clone_text(&self.color),
            prompt_count: self.prompt_count,
        }
    }
}

impl Model {
    pub fn duplicate(&self) -> (r: Model)
        ensures
            r == *self,
    {
        Model {
            id: self.id,
            name: clone_text(&self.name),
            short_name: clone_text(&self.short_name),
            is_active: self.is_active,
        }
    }
}

impl UpdatePrompt {
    /// An update that changes no field.
    pub fn empty() -> (r: UpdatePrompt)
        ensures
            r.is_empty(),
    {
        UpdatePrompt {
            title: None,
            prompt_text: None,
            negative_prompt: None,
            model: None,
            dimensions: None,
            steps: None,
            sampler: None,
            cfg_scale_bits: None,
            seed: None,
            tags: None,
            is_favorite: None,
            collection_id: None,
        }
    }

    pub open spec fn is_empty(&self) -> bool {
        &&& self.title is None
        &&& self.prompt_text is None
        &&& self.negative_prompt is None
        &&& self.model is None
        &&& self.dimensions is None
        &&& self.steps is None
        &&& self.sampler is None
        &&& self.cfg_scale_bits is None
        &&& self.seed is None
        &&& self.tags is None
        &&& self.is_favorite is None
        &&& self.collection_id is None
    }
}

} // verus!
