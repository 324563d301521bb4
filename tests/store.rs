use promptvault::model::{AssetPaths, NewPrompt, StoreError, UpdatePrompt};
use promptvault::store::Database;

fn new_prompt(title: &str, text: &str, model: &str) -> NewPrompt {
    NewPrompt {
        title: title.to_string(),
        prompt_text: text.to_string(),
        negative_prompt: None,
        model: model.to_string(),
        dimensions: None,
        steps: None,
        sampler: None,
        cfg_scale_bits: None,
        seed: None,
        tags: None,
        collection_id: None,
    }
}

#[test]
fn new_store_is_seeded_with_models() {
    let db = Database::new("/data".to_string());
    assert_eq!(db.get_data_dir(), "/data");
    let names: Vec<String> = db.get_models().into_iter().map(|m| m.name).collect();
    assert_eq!(
        names,
        vec![
            "Chat GPT", "DALL-E 3", "Firefly", "Flux Pro", "Flux.1", "Gemini", "Leonardo AI",
            "Midjourney V6", "Stable Diffusion XL"
        ]
    );
    let models = db.get_models();
    assert_eq!(models[5].id, 1);
    assert_eq!(models[5].short_name, "Gemini");
    assert_eq!(models[8].short_name, "SDXL");
    assert!(models.iter().all(|m| m.is_active));
    assert!(db.get_all_prompts(None, None).is_empty());
    assert!(db.get_collections().is_empty());
}

#[test]
fn prompt_without_image_has_no_paths() {
    let mut db = Database::new("/data".to_string());
    let p = db.create_prompt(&new_prompt("t", "a cat", "Gemini"), None, 100).unwrap();
    assert_eq!(p.id, 1);
    assert_eq!(p.image_path, None);
    assert_eq!(p.thumbnail_path, None);
    assert_eq!(p.negative_prompt, "");
    assert_eq!(p.dimensions, "1:1");
    assert_eq!(p.tags, "[]");
    assert!(!p.is_favorite);
    assert_eq!(p.created_at, p.updated_at);
}

#[test]
fn prompt_with_image_records_both_paths() {
    let mut db = Database::new("/data".to_string());
    let mut np = new_prompt("t", "a cat", "Gemini");
    np.tags = Some(vec!["x".to_string(), "y".to_string()]);
    np.dimensions = Some("16:9".to_string());
    np.negative_prompt = Some("blur".to_string());
    np.steps = Some(30);
    np.cfg_scale_bits = Some(7.5f64.to_bits());
    let assets = AssetPaths {
        image_path: "images/2024-05/a.png".to_string(),
        thumbnail_path: "thumbnails/a_thumb.png".to_string(),
    };
    let p = db.create_prompt(&np, Some(assets), 100).unwrap();
    let q = db.get_prompt_by_id(p.id).unwrap();
    assert_eq!(q.image_path.as_deref(), Some("images/2024-05/a.png"));
    assert_eq!(q.thumbnail_path.as_deref(), Some("thumbnails/a_thumb.png"));
    assert_eq!(q.tags, "[\"x\",\"y\"]");
    assert_eq!(q.dimensions, "16:9");
    assert_eq!(q.negative_prompt, "blur");
    assert_eq!(q.steps, Some(30));
    assert_eq!(f64::from_bits(q.cfg_scale_bits.unwrap()), 7.5);
}

#[test]
fn missing_id_is_not_found() {
    let mut db = Database::new("/data".to_string());
    assert_eq!(db.get_prompt_by_id(4).unwrap_err(), StoreError::NotFound);
    assert_eq!(db.update_prompt(4, &UpdatePrompt::empty(), 200).unwrap_err(), StoreError::NotFound);
    assert_eq!(db.toggle_favorite(4), Err(StoreError::NotFound));
    assert_eq!(StoreError::NotFound.message(), "prompt not found");
    assert_eq!(StoreError::Conflict.message(), "a collection with that name already exists");
    assert_eq!(StoreError::Exhausted.message(), "the store is full");
}

#[test]
fn empty_update_keeps_fields_and_advances_stamp() {
    let mut db = Database::new("/data".to_string());
    let mut np = new_prompt("t", "a cat", "Gemini");
    np.tags = Some(vec!["x".to_string()]);
    np.seed = Some("42".to_string());
    let p = db.create_prompt(&np, None, 100).unwrap();
    let u = db.update_prompt(p.id, &UpdatePrompt::empty(), 200).unwrap();
    assert!(u.updated_at > p.updated_at);
    assert_eq!(u.created_at, p.created_at);
    assert_eq!((u.title.clone(), u.prompt_text.clone(), u.tags.clone(), u.seed.clone()), (p.title, p.prompt_text, p.tags, p.seed));
    assert_eq!(u.is_favorite, p.is_favorite);
    assert_eq!(db.get_prompt_by_id(p.id).unwrap().updated_at, u.updated_at);
}

#[test]
fn update_overwrites_present_fields_only() {
    let mut db = Database::new("/data".to_string());
    let p = db.create_prompt(&new_prompt("t", "a cat", "Gemini"), None, 100).unwrap();
    let mut up = UpdatePrompt::empty();
    up.title = Some("new".to_string());
    up.is_favorite = Some(true);
    up.steps = Some(20);
    let u = db.update_prompt(p.id, &up, 200).unwrap();
    assert_eq!(u.title, "new");
    assert_eq!(u.prompt_text, "a cat");
    assert!(u.is_favorite);
    assert_eq!(u.steps, Some(20));
}

#[test]
fn update_replaces_tags() {
    let mut db = Database::new("/data".to_string());
    let mut np = new_prompt("t", "a cat", "Gemini");
    np.tags = Some(vec!["old".to_string(), "keep".to_string()]);
    let p = db.create_prompt(&np, None, 100).unwrap();
    let mut up = UpdatePrompt::empty();
    up.tags = Some(vec!["new".to_string()]);
    let u = db.update_prompt(p.id, &up, 200).unwrap();
    assert_eq!(u.tags, "[\"new\"]");
}

#[test]
fn toggle_twice_restores_flag() {
    let mut db = Database::new("/data".to_string());
    let p = db.create_prompt(&new_prompt("t", "a cat", "Gemini"), None, 100).unwrap();
    assert_eq!(db.toggle_favorite(p.id), Ok(true));
    assert!(db.get_prompt_by_id(p.id).unwrap().is_favorite);
    assert_eq!(db.toggle_favorite(p.id), Ok(false));
    assert!(!db.get_prompt_by_id(p.id).unwrap().is_favorite);
}

#[test]
fn search_matches_title_text_or_tags() {
    let mut db = Database::new("/data".to_string());
    let a = db.create_prompt(&new_prompt("Sunset", "over the sea", "Gemini"), None, 100).unwrap();
    let b = db.create_prompt(&new_prompt("City", "neon XRAY lights", "Gemini"), None, 100).unwrap();
    let mut np = new_prompt("Forest", "trees", "Gemini");
    np.tags = Some(vec!["xmas".to_string()]);
    let c = db.create_prompt(&np, None, 100).unwrap();
    let _d = db.create_prompt(&new_prompt("Plain", "nothing here", "Gemini"), None, 100).unwrap();
    let ids: Vec<i32> = db.search_prompts("x").iter().map(|p| p.id).collect();
    assert_eq!(ids, vec![c.id, b.id]);
    let ids: Vec<i32> = db.search_prompts("SUN").iter().map(|p| p.id).collect();
    assert_eq!(ids, vec![a.id]);
    assert_eq!(db.search_prompts("").len(), 4);
    assert!(db.search_prompts("zebra").is_empty());
}

#[test]
fn listing_filters_and_orders_newest_first() {
    let mut db = Database::new("/data".to_string());
    let a = db.create_prompt(&new_prompt("a", "x", "Gemini"), None, 100).unwrap();
    let mut np = new_prompt("b", "x", "Flux Pro");
    np.collection_id = Some(1);
    let b = db.create_prompt(&np, None, 100).unwrap();
    let mut np = new_prompt("c", "x", "Gemini");
    np.collection_id = Some(1);
    let c = db.create_prompt(&np, None, 100).unwrap();
    let all: Vec<i32> = db.get_all_prompts(None, None).iter().map(|p| p.id).collect();
    assert_eq!(all, vec![c.id, b.id, a.id]);
    let gem: Vec<i32> = db.get_all_prompts(Some("Gemini"), None).iter().map(|p| p.id).collect();
    assert_eq!(gem, vec![c.id, a.id]);
    let both: Vec<i32> = db.get_all_prompts(Some("Gemini"), Some(1)).iter().map(|p| p.id).collect();
    assert_eq!(both, vec![c.id]);
    let coll: Vec<i32> = db.get_all_prompts(None, Some(1)).iter().map(|p| p.id).collect();
    assert_eq!(coll, vec![c.id, b.id]);
}

#[test]
fn delete_removes_row_and_tolerates_missing() {
    let mut db = Database::new("/data".to_string());
    let a = db.create_prompt(&new_prompt("a", "x", "Gemini"), None, 100).unwrap();
    let b = db.create_prompt(&new_prompt("b", "x", "Gemini"), None, 100).unwrap();
    let gone = db.delete_prompt(a.id).unwrap();
    assert_eq!(gone.title, "a");
    assert!(db.delete_prompt(a.id).is_none());
    assert!(db.get_prompt_by_id(a.id).is_err());
    assert_eq!(db.get_prompt_by_id(b.id).unwrap().title, "b");
    let c = db.create_prompt(&new_prompt("c", "x", "Gemini"), None, 100).unwrap();
    assert_eq!(c.id, 3);
}

#[test]
fn duplicate_collection_name_conflicts() {
    let mut db = Database::new("/data".to_string());
    let c = db.create_collection("Portraits").unwrap();
    assert_eq!(c.id, 1);
    assert_eq!(c.icon, "folder");
    assert_eq!(c.prompt_count, 0);
    assert_eq!(db.create_collection("Portraits").unwrap_err(), StoreError::Conflict);
    assert_eq!(db.get_collections().len(), 1);
}

#[test]
fn collection_color_follows_name_length() {
    let mut db = Database::new("/data".to_string());
    let a = db.create_collection("abc").unwrap();
    let b = db.create_collection("xyz").unwrap();
    assert_eq!(a.color, b.color);
    assert_eq!(a.color, "#3B82F6");
    assert_eq!(db.create_collection("").unwrap().color, "#8B5CF6");
    assert_eq!(db.create_collection("a").unwrap().color, "#10B981");
    assert_eq!(db.create_collection("ab").unwrap().color, "#F59E0B");
    assert_eq!(db.create_collection("abcd").unwrap().color, "#EC4899");
    assert_eq!(db.create_collection("abcde").unwrap().color, "#EF4444");
    assert_eq!(db.create_collection("abcdef").unwrap().color, "#8B5CF6");
}

#[test]
fn collections_sorted_with_counts() {
    let mut db = Database::new("/data".to_string());
    let z = db.create_collection("Zoo").unwrap();
    let a = db.create_collection("Animals").unwrap();
    let _m = db.create_collection("Macro").unwrap();
    let mut np = new_prompt("p", "x", "Gemini");
    np.collection_id = Some(z.id);
    db.create_prompt(&np, None, 100).unwrap();
    db.create_prompt(&np, None, 100).unwrap();
    np.collection_id = Some(a.id);
    db.create_prompt(&np, None, 100).unwrap();
    let cs = db.get_collections();
    let names: Vec<&str> = cs.iter().map(|c| c.name.as_str()).collect();
    assert_eq!(names, vec!["Animals", "Macro", "Zoo"]);
    let counts: Vec<i32> = cs.iter().map(|c| c.prompt_count).collect();
    assert_eq!(counts, vec![1, 0, 2]);
}

#[test]
fn restore_accepts_consistent_rows() {
    let mut db = Database::new("/data".to_string());
    db.create_collection("B").unwrap();
    db.create_collection("A").unwrap();
    let a = db.create_prompt(&new_prompt("a", "x", "Gemini"), None, 100).unwrap();
    let b = db.create_prompt(&new_prompt("b", "x", "Gemini"), None, 100).unwrap();
    let rows = vec![a.clone(), b.clone()];
    let colls = db.get_collections();
    let r = Database::restore("/data".to_string(), rows, colls, db.next_prompt_id(), db.next_collection_id(), db.clock())
        .unwrap();
    assert_eq!(r.get_all_prompts(None, None).len(), 2);
    assert_eq!(r.next_prompt_id(), 3);
    assert_eq!(r.next_collection_id(), 3);
    assert_eq!(r.clock(), 101);
    assert_eq!(r.get_models().len(), 9);
}

#[test]
fn restore_refuses_inconsistent_rows() {
    let mut db = Database::new("/data".to_string());
    let a = db.create_prompt(&new_prompt("a", "x", "Gemini"), None, 100).unwrap();
    let b = db.create_prompt(&new_prompt("b", "x", "Gemini"), None, 100).unwrap();
    assert!(Database::restore("/d".to_string(), vec![b.clone(), a.clone()], vec![], 3, 1, 101).is_none());
    assert!(Database::restore("/d".to_string(), vec![a.clone(), b.clone()], vec![], 2, 1, 101).is_none());
    assert!(Database::restore("/d".to_string(), vec![a.clone(), b.clone()], vec![], 3, 1, 100).is_none());
    let mut half = a.clone();
    half.image_path = Some("images/x.png".to_string());
    assert!(Database::restore("/d".to_string(), vec![half], vec![], 3, 1, 101).is_none());
    let mut db2 = Database::new("/d".to_string());
    db2.create_collection("A").unwrap();
    db2.create_collection("B").unwrap();
    let mut cs = db2.get_collections();
    cs.reverse();
    assert!(Database::restore("/d".to_string(), vec![], cs, 1, 3, 0).is_none());
}

#[test]
fn stamps_follow_the_clock_and_never_repeat() {
    let mut db = Database::new("/data".to_string());
    let a = db.create_prompt(&new_prompt("a", "x", "Gemini"), None, 1_700_000_000).unwrap();
    assert_eq!((a.created_at, a.updated_at), (1_700_000_000, 1_700_000_000));
    let b = db.create_prompt(&new_prompt("b", "x", "Gemini"), None, 1_700_000_000).unwrap();
    assert_eq!(b.created_at, 1_700_000_001);
    let u = db.update_prompt(a.id, &UpdatePrompt::empty(), 1_700_000_500).unwrap();
    assert_eq!(u.updated_at, 1_700_000_500);
    assert_eq!(u.created_at, 1_700_000_000);
    let v = db.update_prompt(a.id, &UpdatePrompt::empty(), 5).unwrap();
    assert_eq!(v.updated_at, 1_700_000_501);
    assert_eq!(db.clock(), 1_700_000_501);
}
