use vstd::prelude::*;

use crate::label_stats::{ClassCounts, bump, bump_class, counts_view, key_index, lemma_key_index};
use crate::models::Dataset;
use crate::text::{lowercase, split_chars, split_str, starts_with_seq, starts_with_str, to_lowercase, to_owned_string, views};

verus! {

/// Every task and its category, category by category.
pub open spec fn task_table() -> Seq<(Seq<char>, Seq<char>)> {
    seq![
        ("visual-question-answering"@, "multimodal"@),
        ("video-text-to-text"@, "multimodal"@),
        ("document-question-answering"@, "multimodal"@),
        ("image-text-to-text"@, "multimodal"@),
        ("depth-estimation"@, "computer-vision"@),
        ("image-classification"@, "computer-vision"@),
        ("object-detection"@, "computer-vision"@),
        ("image-segmentation"@, "computer-vision"@),
        ("text-to-image"@, "computer-vision"@),
        ("image-to-text"@, "computer-vision"@),
        ("image-to-image"@, "computer-vision"@),
        ("image-to-video"@, "computer-vision"@),
        ("unconditional-image-generation"@, "computer-vision"@),
        ("video-classification"@, "computer-vision"@),
        ("text-to-video"@, "computer-vision"@),
        ("zero-shot-image-classification"@, "computer-vision"@),
        ("mask-generation"@, "computer-vision"@),
        ("zero-shot-object-detection"@, "computer-vision"@),
        ("text-to-3d"@, "computer-vision"@),
        ("image-to-3d"@, "computer-vision"@),
        ("image-feature-extraction"@, "computer-vision"@),
        ("keypoint-detection"@, "computer-vision"@),
        ("text-classification"@, "natural-language-processing"@),
        ("token-classification"@, "natural-language-processing"@),
        ("table-question-answering"@, "natural-language-processing"@),
        ("question-answering"@, "natural-language-processing"@),
        ("zero-shot-classification"@, "natural-language-processing"@),
        ("translation"@, "natural-language-processing"@),
        ("summarization"@, "natural-language-processing"@),
        ("feature-extraction"@, "natural-language-processing"@),
        ("text-generation"@, "natural-language-processing"@),
        ("text2text-generation"@, "natural-language-processing"@),
        ("fill-mask"@, "natural-language-processing"@),
        ("sentence-similarity"@, "natural-language-processing"@),
        ("table-to-text"@, "natural-language-processing"@),
        ("multiple-choice"@, "natural-language-processing"@),
        ("text-retrieval"@, "natural-language-processing"@),
        ("text-to-speech"@, "audio"@),
        ("text-to-audio"@, "audio"@),
        ("automatic-speech-recognition"@, "audio"@),
        ("audio-to-audio"@, "audio"@),
        ("audio-classification"@, "audio"@),
        ("voice-activity-detection"@, "audio"@),
        ("tabular-classification"@, "tabular"@),
        ("tabular-regression"@, "tabular"@),
        ("tabular-to-text"@, "tabular"@),
        ("time-series-forecasting"@, "tabular"@),
        ("reinforcement-learning"@, "reinforcement-learning"@),
        ("robotics"@, "reinforcement-learning"@),
        ("graph-ml"@, "other"@),
        ("other"@, "other"@),
    ]
}

/// The task categories.
pub open spec fn category_table() -> Seq<Seq<char>> {
    seq!["multimodal"@, "computer-vision"@, "natural-language-processing"@, "audio"@, "tabular"@, "reinforcement-learning"@, "other"@]
}

/// Pairs of texts, as character sequences.
pub open spec fn name_pairs(v: Seq<(String, String)>) -> Seq<(Seq<char>, Seq<char>)> {
    v.map_values(|p: (String, String)| (p.0@, p.1@))
}

/// The categories, each with its (empty) list of tasks, as character sequences.
pub open spec fn category_entries(v: Seq<(String, Vec<String>)>) -> Seq<(Seq<char>, Seq<Seq<char>>)> {
    v.map_values(|p: (String, Vec<String>)| (p.0@, views(p.1@)))
}

/// The value of the first pair with key `k` at or after position `i`.
pub open spec fn lookup_from(table: Seq<(Seq<char>, Seq<char>)>, k: Seq<char>, i: int) -> Option<Seq<char>>
    decreases table.len() - i,
{
    if i < 0 || i >= table.len() {
        None
    } else if table[i].0 == k {
        Some(table[i].1)
    } else {
        lookup_from(table, k, i + 1)
    }
}

/// The value of the first pair with key `k`.
pub open spec fn lookup(table: Seq<(Seq<char>, Seq<char>)>, k: Seq<char>) -> Option<Seq<char>> {
    lookup_from(table, k, 0)
}

fn add_task(tasks: &mut Vec<(String, String)>, task: &str, category: &str)
    ensures
        name_pairs(final(tasks)@) == name_pairs(old(tasks)@).push((task@, category@)),
{
    let ghost before = tasks@;
    tasks.push((to_owned_string(task), to_owned_string(category)));
    assert(name_pairs(tasks@) =~= name_pairs(before).push((task@, category@)));
}

fn add_category(categories: &mut Vec<(String, Vec<String>)>, category: &str)
    ensures
        category_entries(final(categories)@) == category_entries(old(categories)@).push(
            (category@, Seq::<Seq<char>>::empty()),
        ),
{
    let ghost before = categories@;
    let empty: Vec<String> = Vec::new();
    assert(views(empty@) =~= Seq::<Seq<char>>::empty());
    categories.push((to_owned_string(category), empty));
    assert(category_entries(categories@) =~= category_entries(before).push(
        (category@, Seq::<Seq<char>>::empty()),
    ));
}

/// The task categories, each with an empty task list, and every task with its category.
pub fn get_category_task_mapping() -> (r: (Vec<(String, Vec<String>)>, Vec<(String, String)>))
    ensures
        category_entries(r.0@) == category_table().map_values(|c: Seq<char>| (c, Seq::<Seq<char>>::empty())),
        name_pairs(r.1@) == task_table(),
{
    let mut task_category_mapping: Vec<(String, String)> = Vec::new();
    let mut category_task_mapping: Vec<(String, Vec<String>)> = Vec::new();
    assert(name_pairs(task_category_mapping@) =~= Seq::empty());
    assert(category_entries(category_task_mapping@) =~= Seq::empty());
    add_task(&mut task_category_mapping, "visual-question-answering", "multimodal");
    add_task(&mut task_category_mapping, "video-text-to-text", "multimodal");
    add_task(&mut task_category_mapping, "document-question-answering", "multimodal");
    add_task(&mut task_category_mapping, "image-text-to-text", "multimodal");
    add_task(&mut task_category_mapping, "depth-estimation", "computer-vision");
    add_task(&mut task_category_mapping, "image-classification", "computer-vision");
    add_task(&mut task_category_mapping, "object-detection", "computer-vision");
    add_task(&mut task_category_mapping, "image-segmentation", "computer-vision");
    add_task(&mut task_category_mapping, "text-to-image", "computer-vision");
    add_task(&mut task_category_mapping, "image-to-text", "computer-vision");
    add_task(&mut task_category_mapping, "image-to-image", "computer-vision");
    add_task(&mut task_category_mapping, "image-to-video", "computer-vision");
    add_task(&mut task_category_mapping, "unconditional-image-generation", "computer-vision");
    add_task(&mut task_category_mapping, "video-classification", "computer-vision");
    add_task(&mut task_category_mapping, "text-to-video", "computer-vision");
    add_task(&mut task_category_mapping, "zero-shot-image-classification", "computer-vision");
    add_task(&mut task_category_mapping, "mask-generation", "computer-vision");
    add_task(&mut task_category_mapping, "zero-shot-object-detection", "computer-vision");
    add_task(&mut task_category_mapping, "text-to-3d", "computer-vision");
    add_task(&mut task_category_mapping, "image-to-3d", "computer-vision");
    add_task(&mut task_category_mapping, "image-feature-extraction", "computer-vision");
    add_task(&mut task_category_mapping, "keypoint-detection", "computer-vision");
    add_task(&mut task_category_mapping, "text-classification", "natural-language-processing");
    add_task(&mut task_category_mapping, "token-classification", "natural-language-processing");
    add_task(&mut task_category_mapping, "table-question-answering", "natural-language-processing");
    add_task(&mut task_category_mapping, "question-answering", "natural-language-processing");
    add_task(&mut task_category_mapping, "zero-shot-classification", "natural-language-processing");
    add_task(&mut task_category_mapping, "translation", "natural-language-processing");
    add_task(&mut task_category_mapping, "summarization", "natural-language-processing");
    add_task(&mut task_category_mapping, "feature-extraction", "natural-language-processing");
    add_task(&mut task_category_mapping, "text-generation", "natural-language-processing");
    add_task(&mut task_category_mapping, "text2text-generation", "natural-language-processing");
    add_task(&mut task_category_mapping, "fill-mask", "natural-language-processing");
    add_task(&mut task_category_mapping, "sentence-similarity", "natural-language-processing");
    add_task(&mut task_category_mapping, "table-to-text", "natural-language-processing");
    add_task(&mut task_category_mapping, "multiple-choice", "natural-language-processing");
    add_task(&mut task_category_mapping, "text-retrieval", "natural-language-processing");
    add_task(&mut task_category_mapping, "text-to-speech", "audio");
    add_task(&mut task_category_mapping, "text-to-audio", "audio");
    add_task(&mut task_category_mapping, "automatic-speech-recognition", "audio");
    add_task(&mut task_category_mapping, "audio-to-audio", "audio");
    add_task(&mut task_category_mapping, "audio-classification", "audio");
    add_task(&mut task_category_mapping, "voice-activity-detection", "audio");
    add_task(&mut task_category_mapping, "tabular-classification", "tabular");
    add_task(&mut task_category_mapping, "tabular-regression", "tabular");
    add_task(&mut task_category_mapping, "tabular-to-text", "tabular");
    add_task(&mut task_category_mapping, "time-series-forecasting", "tabular");
    add_task(&mut task_category_mapping, "reinforcement-learning", "reinforcement-learning");
    add_task(&mut task_category_mapping, "robotics", "reinforcement-learning");
    add_task(&mut task_category_mapping, "graph-ml", "other");
    add_task(&mut task_category_mapping, "other", "other");
    add_category(&mut category_task_mapping, "multimodal");
    add_category(&mut category_task_mapping, "computer-vision");
    add_category(&mut category_task_mapping, "natural-language-processing");
    add_category(&mut category_task_mapping, "audio");
    add_category(&mut category_task_mapping, "tabular");
    add_category(&mut category_task_mapping, "reinforcement-learning");
    add_category(&mut category_task_mapping, "other");
    assert(name_pairs(task_category_mapping@) =~= task_table());
    assert(category_entries(category_task_mapping@) =~= category_table().map_values(
        |c: Seq<char>| (c, Seq::<Seq<char>>::empty()),
    ));
    (category_task_mapping, task_category_mapping)
}

/// The prefix that marks a tag naming a task.
pub open spec fn task_tag_prefix() -> Seq<char> {
    "task_categories:"@
}

/// The task a dataset tag names: the lowercased tag begins with
/// `task_categories:` and splits at `:` into exactly two pieces, the second of
/// which is the task.
pub open spec fn tag_task(tag: Seq<char>) -> Option<Seq<char>> {
    let t = lowercase(tag);
    if starts_with_seq(t, task_tag_prefix()) && split_chars(t, ':').len() == 2 {
        Some(split_chars(t, ':')[1])
    } else {
        None
    }
}

/// The task the tag names, if any.
pub fn tag_task_exec(tag: &String) -> (r: Option<String>)
    ensures
        match r {
            None => tag_task(tag@) is None,
            Some(t) => tag_task(tag@) == Some(t@),
        },
{
    let t = to_lowercase(tag.as_str());
    if !starts_with_str(t.as_str(), "task_categories:") {
        return None;
    }
    let mut parts = split_str(t.as_str(), ':');
    if parts.len() != 2 {
        return None;
    }
    let task = parts.remove(1);
    Some(task)
}

/// The category of `task` in the mapping (the first entry for it).
pub fn lookup_category(mapping: &Vec<(String, String)>, task: &String) -> (r: Option<String>)
    ensures
        match r {
            None => lookup(name_pairs(mapping@), task@) is None,
            Some(c) => lookup(name_pairs(mapping@), task@) == Some(c@),
        },
{
    let ghost table = name_pairs(mapping@);
    let mut k: usize = 0;
    while k < mapping.len()
        invariant
            k <= mapping@.len(),
            table == name_pairs(mapping@),
            lookup(table, task@) == lookup_from(table, task@, k as int),
        decreases mapping.len() - k,
    {
        if mapping[k].0 == *task {
            return Some(mapping[k].1.clone());
        }
        k = k + 1;
    }
    None
}

/// The state of the task-popularity analysis after some datasets.
pub struct TaskModel {
    /// How many datasets name each task, in order of first appearance.
    pub tasks: Seq<(Seq<char>, int)>,
    /// How many task tags fall in each category, in order of first appearance.
    pub categories: Seq<(Seq<char>, int)>,
    /// A tag named a task that has no category.
    pub unknown: Option<Seq<char>>,
    /// How many datasets have been read.
    pub visited: int,
    /// How many task tags have been counted.
    pub counted: int,
}

/// The state after tag `tag`.
pub open spec fn task_tag_step(s: TaskModel, tag: Seq<char>) -> TaskModel {
    if s.unknown is Some {
        s
    } else {
        match tag_task(tag) {
            None => s,
            Some(t) => match lookup(task_table(), t) {
                None => TaskModel { unknown: Some(t), ..s },
                Some(c) => TaskModel {
                    tasks: bump(s.tasks, t, 1),
                    categories: bump(s.categories, c, 1),
                    counted: s.counted + 1,
                    ..s
                },
            },
        }
    }
}

/// The state after the tags from position `j` on.
pub open spec fn task_tags_from(s: TaskModel, tags: Seq<String>, j: int) -> TaskModel
    decreases tags.len() - j,
{
    if j < 0 || j >= tags.len() {
        s
    } else {
        task_tags_from(task_tag_step(s, tags[j]@), tags, j + 1)
    }
}

/// The state once the datasets from `i` on have been read, starting from `s`;
/// reading stops after `max(target, 1)` datasets or at a task without category.
pub open spec fn task_run_from(ds: Seq<Dataset>, target: int, s: TaskModel, i: int) -> TaskModel
    decreases ds.len() - i,
{
    if i < 0 || i >= ds.len() || s.unknown is Some || (s.visited > 0 && s.visited >= target) {
        s
    } else {
        let s1 = task_tags_from(s, ds[i].tags@, 0);
        task_run_from(ds, target, TaskModel { visited: s1.visited + 1, ..s1 }, i + 1)
    }
}

/// The state once the datasets have been read.
pub open spec fn task_run(ds: Seq<Dataset>, target: int) -> TaskModel {
    task_run_from(
        ds,
        target,
        TaskModel { tasks: Seq::empty(), categories: Seq::empty(), unknown: None, visited: 0, counted: 0 },
        0,
    )
}

/// The number of tags of all datasets.
pub open spec fn total_tags(ds: Seq<Dataset>) -> int
    decreases ds.len(),
{
    if ds.len() == 0 {
        0
    } else {
        total_tags(ds.drop_last()) + ds.last().tags@.len()
    }
}

/// The sum of the counts.
pub open spec fn sum_counts(l: Seq<(Seq<char>, int)>) -> int
    decreases l.len(),
{
    if l.len() == 0 {
        0
    } else {
        sum_counts(l.drop_last()) + l.last().1
    }
}

/// Every count is at least zero.
pub open spec fn nonneg(l: Seq<(Seq<char>, int)>) -> bool {
    forall|i: int| 0 <= i < l.len() ==> 0 <= #[trigger] l[i].1
}

proof fn lemma_sum_update(l: Seq<(Seq<char>, int)>, i: int, x: (Seq<char>, int))
    requires
        0 <= i < l.len(),
    ensures
        sum_counts(l.update(i, x)) == sum_counts(l) - l[i].1 + x.1,
    decreases l.len(),
{
    if i < l.len() - 1 {
        assert(l.update(i, x).drop_last() =~= l.drop_last().update(i, x));
        lemma_sum_update(l.drop_last(), i, x);
    } else {
        assert(l.update(i, x).drop_last() =~= l.drop_last());
    }
}

proof fn lemma_sum_nonneg(l: Seq<(Seq<char>, int)>)
    requires
        nonneg(l),
    ensures
        0 <= sum_counts(l),
    decreases l.len(),
{
    if l.len() > 0 {
        assert(nonneg(l.drop_last())) by {
            assert forall|q: int| 0 <= q < l.drop_last().len() implies 0 <= #[trigger] l.drop_last()[q].1 by {
                assert(l.drop_last()[q] == l[q]);
            }
        }
        lemma_sum_nonneg(l.drop_last());
        assert(0 <= l[l.len() - 1].1);
    }
}

proof fn lemma_entry_le_sum(l: Seq<(Seq<char>, int)>, i: int)
    requires
        0 <= i < l.len(),
        nonneg(l),
    ensures
        l[i].1 <= sum_counts(l),
    decreases l.len(),
{
    assert(nonneg(l.drop_last())) by {
        assert forall|q: int| 0 <= q < l.drop_last().len() implies 0 <= #[trigger] l.drop_last()[q].1 by {
            assert(l.drop_last()[q] == l[q]);
        }
    }
    lemma_sum_nonneg(l.drop_last());
    assert(0 <= l[l.len() - 1].1);
    if i < l.len() - 1 {
        lemma_entry_le_sum(l.drop_last(), i);
        assert(l.drop_last()[i] == l[i]);
    }
}

/// Adding one to a count adds one to the sum, keeps counts at least zero and
/// within the sum.
proof fn lemma_bump_one(l: Seq<(Seq<char>, int)>, k: Seq<char>)
    requires
        nonneg(l),
    ensures
        sum_counts(bump(l, k, 1)) == sum_counts(l) + 1,
        nonneg(bump(l, k, 1)),
        forall|i: int| 0 <= i < bump(l, k, 1).len() ==> #[trigger] bump(l, k, 1)[i].1 <= sum_counts(l) + 1,
{
    lemma_key_index(l, k);
    let i = key_index(l, k);
    if i >= 0 {
        lemma_sum_update(l, i, (k, l[i].1 + 1));
    } else {
        assert(l.push((k, 1)).drop_last() =~= l);
    }
    let b = bump(l, k, 1);
    assert forall|q: int| 0 <= q < b.len() implies 0 <= #[trigger] b[q].1 by {
        if q < l.len() {
            assert(0 <= l[q].1);
        }
    }
    assert forall|q: int| 0 <= q < b.len() implies #[trigger] b[q].1 <= sum_counts(l) + 1 by {
        lemma_entry_le_sum(b, q);
    }
}

/// What the task-popularity analysis reports.
pub struct TaskPopularityReport {
    /// Each task with its category and how many task tags name it, in order of first appearance.
    pub tasks: Vec<(String, String, usize)>,
    /// Each category with how many task tags fall in it, in order of first appearance.
    pub categories: Vec<(String, usize)>,
}

/// The (task, count) pairs of the report's task rows.
pub open spec fn task_rows_counts(v: Seq<(String, String, usize)>) -> Seq<(Seq<char>, int)> {
    v.map_values(|t: (String, String, usize)| (t.0@, t.2 as int))
}

/// How popular each task and each category is among the first `max(target_count, 1)`
/// datasets of `datasets` (fewer if there are fewer): how many of their tags
/// name each task (see `tag_task`), and how many fall in each category.
/// `Err` holds a task that has no category.
pub fn task_popularity(datasets: &Vec<Dataset>, target_count: usize) -> (r: Result<TaskPopularityReport, String>)
    requires
        total_tags(datasets@) <= usize::MAX,
    ensures
        ({
            let m = task_run(datasets@, target_count as int);
            match r {
                Err(t) => m.unknown == Some(t@),
                Ok(rep) => {
                    &&& m.unknown is None
                    &&& task_rows_counts(rep.tasks@) == m.tasks
                    &&& counts_view(rep.categories@) == m.categories
                    &&& forall|i: int|
                        0 <= i < rep.tasks@.len() ==> lookup(task_table(), #[trigger] rep.tasks@[i].0@) == Some(
                            rep.tasks@[i].1@,
                        )
                    &&& sum_counts(m.tasks) == sum_counts(m.categories)
                },
            }
        }),
{
    let (_, mapping) = get_category_task_mapping();
    let ghost final_model = task_run(datasets@, target_count as int);
    let mut task_counts: ClassCounts = Vec::new();
    let mut category_counts: ClassCounts = Vec::new();
    let mut visited: usize = 0;
    let ghost mut counted: int = 0;
    let mut d: usize = 0;
    proof {
        assert(counts_view(task_counts@) =~= Seq::empty());
        assert(counts_view(category_counts@) =~= Seq::empty());
        assert(datasets@.take(0) =~= Seq::<Dataset>::empty());
    }
    while d < datasets.len() && !(visited > 0 && visited >= target_count)
        invariant
            d <= datasets@.len(),
            visited == d,
            name_pairs(mapping@) == task_table(),
            total_tags(datasets@) <= usize::MAX,
            final_model == task_run(datasets@, target_count as int),
            nonneg(counts_view(task_counts@)),
            nonneg(counts_view(category_counts@)),
            sum_counts(counts_view(task_counts@)) == counted,
            sum_counts(counts_view(category_counts@)) == counted,
            0 <= counted <= total_tags(datasets@.take(d as int)),
            forall|i: int|
                0 <= i < task_counts@.len() ==> lookup(task_table(), #[trigger] task_counts@[i].0@) is Some,
            task_run_from(
                datasets@,
                target_count as int,
                TaskModel {
                    tasks: counts_view(task_counts@),
                    categories: counts_view(category_counts@),
                    unknown: None,
                    visited: visited as int,
                    counted: counted,
                },
                d as int,
            ) == final_model,
        decreases datasets.len() - d,
    {
        let tags = &datasets[d].tags;
        let ghost s0 = TaskModel {
            tasks: counts_view(task_counts@),
            categories: counts_view(category_counts@),
            unknown: None,
            visited: visited as int,
            counted: counted,
        };
        let ghost target = task_tags_from(s0, tags@, 0);
        let ghost after = TaskModel { visited: target.visited + 1, ..target };
        let ghost counted0 = counted;
        assert(task_run_from(datasets@, target_count as int, after, d + 1) == final_model);
        proof {
            assert(datasets@.take(d + 1).drop_last() =~= datasets@.take(d as int));
            lemma_total_tags_prefix(datasets@, d + 1);
        }
        let mut j: usize = 0;
        while j < tags.len()
            invariant
                j <= tags@.len(),
                *tags == datasets@[d as int].tags,
                name_pairs(mapping@) == task_table(),
                target == task_tags_from(s0, tags@, 0),
                after == (TaskModel { visited: target.visited + 1, ..target }),
                task_run_from(datasets@, target_count as int, after, d + 1) == final_model,
                final_model == task_run(datasets@, target_count as int),
                d < datasets@.len(),
                nonneg(counts_view(task_counts@)),
                nonneg(counts_view(category_counts@)),
                sum_counts(counts_view(task_counts@)) == counted,
                sum_counts(counts_view(category_counts@)) == counted,
                counted0 <= counted <= counted0 + j,
                counted0 + tags@.len() <= usize::MAX,
                forall|i: int|
                    0 <= i < task_counts@.len() ==> lookup(task_table(), #[trigger] task_counts@[i].0@) is Some,
                task_tags_from(
                    TaskModel {
                        tasks: counts_view(task_counts@),
                        categories: counts_view(category_counts@),
                        unknown: None,
                        visited: s0.visited,
                        counted: counted,
                    },
                    tags@,
                    j as int,
                ) == target,
            decreases tags.len() - j,
        {
            match tag_task_exec(&tags[j]) {
                None => {},
                Some(task) => {
                    match lookup_category(&mapping, &task) {
                        None => {
                            proof {
                                let cur = TaskModel {
                                    tasks: counts_view(task_counts@),
                                    categories: counts_view(category_counts@),
                                    unknown: None,
                                    visited: s0.visited,
                                    counted: counted,
                                };
                                let nxt = TaskModel { unknown: Some(task@), ..cur };
                                assert(task_tag_step(cur, tags@[j as int]@) == nxt);
                                lemma_unknown_stays(tags@, j + 1, task@, nxt);
                                assert(target.unknown == Some(task@));
                                assert(after.unknown == Some(task@));
                                assert(final_model == after);
                            }
                            return Err(task);
                        },
                        Some(category) => {
                            proof {
                                lemma_bump_one(counts_view(task_counts@), task@);
                                lemma_bump_one(counts_view(category_counts@), category@);
                            }
                            let ghost tc_before = task_counts@;
                            bump_class(&mut task_counts, &task, 1);
                            bump_class(&mut category_counts, &category, 1);
                            proof {
                                counted = counted + 1;
                                lemma_key_index(counts_view(tc_before), task@);
                                assert forall|i: int| 0 <= i < task_counts@.len() implies lookup(
                                    task_table(),
                                    #[trigger] task_counts@[i].0@,
                                ) is Some by {
                                    assert(counts_view(task_counts@)[i].0 == task_counts@[i].0@);
                                    if i < tc_before.len() {
                                        assert(counts_view(tc_before)[i].0 == tc_before[i].0@);
                                    }
                                }
                            }
                        },
                    }
                },
            }
            j = j + 1;
        }
        visited = visited + 1;
        d = d + 1;
    }
    let mut rows: Vec<(String, String, usize)> = Vec::new();
    let mut k: usize = 0;
    while k < task_counts.len()
        invariant
            k <= task_counts@.len(),
            name_pairs(mapping@) == task_table(),
            rows@.len() == k,
            forall|i: int|
                0 <= i < task_counts@.len() ==> lookup(task_table(), #[trigger] task_counts@[i].0@) is Some,
            forall|i: int|
                0 <= i < k ==> (#[trigger] rows@[i]).0@ == task_counts@[i].0@ && rows@[i].2 == task_counts@[i].1
                    && lookup(task_table(), rows@[i].0@) == Some(rows@[i].1@),
        decreases task_counts.len() - k,
    {
        let t = &task_counts[k].0;
        let c = lookup_category(&mapping, t);
        match c {
            Some(c) => {
                rows.push((t.clone(), c, task_counts[k].1));
            },
            None => {
                assert(false);
                rows.push((t.clone(), String::new(), task_counts[k].1));
            },
        }
        k = k + 1;
    }
    assert(task_rows_counts(rows@) =~= counts_view(task_counts@));
    Ok(TaskPopularityReport { tasks: rows, categories: category_counts })
}

/// After a task without category, the remaining tags change nothing.
proof fn lemma_unknown_stays(tags: Seq<String>, j: int, t: Seq<char>, s: TaskModel)
    requires
        0 <= j <= tags.len(),
        s.unknown == Some(t),
    ensures
        task_tags_from(s, tags, j) == s,
    decreases tags.len() - j,
{
    if j < tags.len() {
        lemma_unknown_stays(tags, j + 1, t, s);
    }
}

proof fn lemma_total_tags_prefix(ds: Seq<Dataset>, k: int)
    requires
        0 <= k <= ds.len(),
    ensures
        total_tags(ds.take(k)) <= total_tags(ds),
    decreases ds.len() - k,
{
    if k < ds.len() {
        lemma_total_tags_prefix(ds, k + 1);
        assert(ds.take(k + 1).drop_last() =~= ds.take(k));
    } else {
        assert(ds.take(k) =~= ds);
    }
}

} // verus!
