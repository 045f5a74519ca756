use limit_analysis::models::Dataset;
use limit_analysis::task_popularity::{get_category_task_mapping, lookup_category, tag_task_exec, task_popularity};

fn dataset(tags: &[&str]) -> Dataset {
    Dataset {
        _id: "id".to_string(),
        id: "org/name".to_string(),
        author: "org".to_string(),
        disabled: false,
        last_modified: String::new(),
        likes: 0,
        private: false,
        sha: String::new(),
        description: None,
        downloads: 0,
        tags: tags.iter().map(|t| t.to_string()).collect(),
        created_at: String::new(),
        key: String::new(),
    }
}

#[test]
fn category_task_mapping_lists_every_task() {
    let (categories, tasks) = get_category_task_mapping();
    assert_eq!(categories.len(), 7);
    assert!(categories.iter().all(|(_, t)| t.is_empty()));
    assert_eq!(tasks.len(), 51);
    assert_eq!(lookup_category(&tasks, &"translation".to_string()), Some("natural-language-processing".to_string()));
    assert_eq!(lookup_category(&tasks, &"robotics".to_string()), Some("reinforcement-learning".to_string()));
    assert_eq!(lookup_category(&tasks, &"graph-ml".to_string()), Some("other".to_string()));
    assert_eq!(lookup_category(&tasks, &"cooking".to_string()), None);
}

#[test]
fn tag_task_reads_task_category_tags() {
    assert_eq!(tag_task_exec(&"task_categories:translation".to_string()), Some("translation".to_string()));
    assert_eq!(tag_task_exec(&"TASK_CATEGORIES:Image-Classification".to_string()), Some("image-classification".to_string()));
    assert_eq!(tag_task_exec(&"task_categories:a:b".to_string()), None);
    assert_eq!(tag_task_exec(&"language:en".to_string()), None);
    assert_eq!(tag_task_exec(&"task_ids:task_categories:x".to_string()), None);
}

#[test]
fn task_popularity_counts_tasks_and_categories() {
    let ds = vec![
        dataset(&["task_categories:translation", "language:en"]),
        dataset(&["TASK_CATEGORIES:Translation", "task_categories:image-classification"]),
        dataset(&["task_categories:text-generation"]),
    ];
    let rep = task_popularity(&ds, 2).unwrap();
    assert_eq!(
        rep.tasks,
        vec![
            ("translation".to_string(), "natural-language-processing".to_string(), 2),
            ("image-classification".to_string(), "computer-vision".to_string(), 1),
        ]
    );
    assert_eq!(
        rep.categories,
        vec![("natural-language-processing".to_string(), 2), ("computer-vision".to_string(), 1)]
    );
    let task_total: usize = rep.tasks.iter().map(|t| t.2).sum();
    let category_total: usize = rep.categories.iter().map(|c| c.1).sum();
    assert_eq!(task_total, category_total);
}

#[test]
fn task_popularity_reads_at_least_one_dataset() {
    let ds = vec![dataset(&["task_categories:robotics"]), dataset(&["task_categories:robotics"])];
    let rep = task_popularity(&ds, 0).unwrap();
    assert_eq!(rep.tasks, vec![("robotics".to_string(), "reinforcement-learning".to_string(), 1)]);
}

#[test]
fn task_popularity_rejects_unknown_task() {
    let ds = vec![dataset(&["task_categories:translation", "task_categories:cooking", "task_categories:nope"])];
    assert_eq!(task_popularity(&ds, 5).err(), Some("cooking".to_string()));
}
