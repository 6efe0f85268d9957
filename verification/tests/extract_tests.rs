use anilist_taste::aggregate::{compute_taste_ratio, join};
use anilist_taste::extract::{
    avg_scores_from_response, extract_batched_averages, extract_lists, list_name, list_selected,
    parse_entry_values,
};
use anilist_taste::json::Json;

fn entry(id: i64, score: i64) -> Json {
    Json::Obj(vec![
        (String::from("mediaId"), Json::Int(id)),
        (String::from("score"), Json::Int(score)),
    ])
}

fn avg_member(i: u64, score: Option<i64>) -> (String, Json) {
    let key = format!("query_{i}");
    let body = match score {
        Some(s) => Json::Obj(vec![(String::from("averageScore"), Json::Int(s))]),
        None => Json::Obj(vec![]),
    };
    (key, body)
}

#[test]
fn entries_extracted_in_declared_order() {
    let list = Json::Obj(vec![(
        String::from("entries"),
        Json::Arr(vec![entry(11, 70), entry(22, 80), entry(33, 90)]),
    )]);
    let (ids, scores) = parse_entry_values(&list);
    assert_eq!(ids, vec![11, 22, 33]);
    assert_eq!(scores, vec![70, 80, 90]);
}

#[test]
fn malformed_entries_are_skipped_silently() {
    let missing_score = Json::Obj(vec![(String::from("mediaId"), Json::Int(5))]);
    let non_integer = Json::Obj(vec![
        (String::from("mediaId"), Json::Str(String::from("7"))),
        (String::from("score"), Json::Int(50)),
    ]);
    let list = Json::Obj(vec![(
        String::from("entries"),
        Json::Arr(vec![entry(1, 10), missing_score, non_integer, entry(2, 20)]),
    )]);
    let (ids, scores) = parse_entry_values(&list);
    assert_eq!(ids, vec![1, 2]);
    assert_eq!(scores, vec![10, 20]);
}

#[test]
fn list_without_entries_yields_nothing() {
    let list = Json::Obj(vec![(String::from("name"), Json::Str(String::from("Watching")))]);
    let (ids, scores) = parse_entry_values(&list);
    assert!(ids.is_empty());
    assert!(scores.is_empty());
}

#[test]
fn averages_reordered_by_numeric_suffix() {
    let data = Json::Obj(vec![
        avg_member(2, Some(30)),
        avg_member(0, Some(10)),
        avg_member(1, Some(20)),
    ]);
    let avgs = extract_batched_averages(&data);
    assert_eq!(avgs, vec![10, 20, 30]);
}

#[test]
fn numeric_order_beats_lexicographic_order() {
    // With eleven aliases, "query_10" sorts lexicographically before
    // "query_2"; the recovered order must be numeric.
    let members: Vec<(String, Json)> = vec![
        avg_member(10, Some(110)),
        avg_member(2, Some(102)),
        avg_member(0, Some(100)),
        avg_member(1, Some(101)),
        avg_member(9, Some(109)),
        avg_member(3, Some(103)),
        avg_member(4, Some(104)),
        avg_member(8, Some(108)),
        avg_member(5, Some(105)),
        avg_member(7, Some(107)),
        avg_member(6, Some(106)),
    ];
    let data = Json::Obj(members);
    let avgs = extract_batched_averages(&data);
    assert_eq!(
        avgs,
        vec![100, 101, 102, 103, 104, 105, 106, 107, 108, 109, 110]
    );
}

#[test]
fn missing_average_score_defaults_to_zero() {
    let data = Json::Obj(vec![avg_member(1, Some(44)), avg_member(0, None)]);
    let avgs = extract_batched_averages(&data);
    assert_eq!(avgs, vec![0, 44]);
}

#[test]
fn empty_batch_yields_empty_averages() {
    let data = Json::Obj(vec![]);
    let avgs = extract_batched_averages(&data);
    assert!(avgs.is_empty());
}

#[test]
fn response_without_data_object_is_rejected() {
    let resp = Json::Obj(vec![(String::from("errors"), Json::Arr(vec![]))]);
    assert!(avg_scores_from_response(&resp).is_none());
}

#[test]
fn averages_read_from_response_data() {
    let resp = Json::Obj(vec![(
        String::from("data"),
        Json::Obj(vec![avg_member(1, Some(85)), avg_member(0, Some(70))]),
    )]);
    let avgs = avg_scores_from_response(&resp).unwrap();
    assert_eq!(avgs, vec![70, 85]);
}

#[test]
fn missing_lists_structure_is_fatal() {
    let resp = Json::Obj(vec![(String::from("data"), Json::Obj(vec![]))]);
    assert!(extract_lists(&resp).is_none());
}

#[test]
fn lists_found_under_collection() {
    let resp = Json::Obj(vec![(
        String::from("data"),
        Json::Obj(vec![(
            String::from("MediaListCollection"),
            Json::Obj(vec![(String::from("lists"), Json::Arr(vec![Json::Obj(vec![])]))]),
        )]),
    )]);
    let lists = extract_lists(&resp).unwrap();
    assert_eq!(lists.len(), 1);
}

#[test]
fn only_watching_and_completed_are_selected() {
    assert!(list_selected(&String::from("Watching")));
    assert!(list_selected(&String::from("Completed")));
    assert!(!list_selected(&String::from("Paused")));
    assert!(!list_selected(&String::from("Dropped")));
    assert!(!list_selected(&String::from("watching")));
}

#[test]
fn paused_list_never_reaches_output() {
    let watching = Json::Obj(vec![
        (String::from("name"), Json::Str(String::from("Watching"))),
        (String::from("entries"), Json::Arr(vec![entry(1, 80)])),
    ]);
    let paused = Json::Obj(vec![
        (String::from("name"), Json::Str(String::from("Paused"))),
        (String::from("entries"), Json::Arr(vec![entry(2, 90)])),
    ]);
    let mut produced: Vec<String> = Vec::new();
    for list in [watching, paused].iter() {
        let name = list_name(list).unwrap();
        if list_selected(name) {
            produced.push(name.clone());
        }
    }
    assert_eq!(produced, vec![String::from("Watching")]);
}

#[test]
fn end_to_end_watching_scenario() {
    // List fetch: "Watching" with entries (id=1, score=80), (id=2, score=90).
    let resp = Json::Obj(vec![(
        String::from("data"),
        Json::Obj(vec![(
            String::from("MediaListCollection"),
            Json::Obj(vec![(
                String::from("lists"),
                Json::Arr(vec![Json::Obj(vec![
                    (String::from("name"), Json::Str(String::from("Watching"))),
                    (String::from("entries"), Json::Arr(vec![entry(1, 80), entry(2, 90)])),
                ])]),
            )]),
        )]),
    )]);
    let lists = extract_lists(&resp).unwrap();
    let list = &lists[0];
    let name = list_name(list).unwrap().clone();
    assert!(list_selected(&name));
    let (ids, scores) = parse_entry_values(list);
    assert_eq!(ids, vec![1, 2]);
    assert_eq!(scores, vec![80, 90]);

    // Batched averages arrive out of numeric order.
    let avg_resp = Json::Obj(vec![(
        String::from("data"),
        Json::Obj(vec![avg_member(1, Some(85)), avg_member(0, Some(70))]),
    )]);
    let avgs = avg_scores_from_response(&avg_resp).unwrap();
    assert_eq!(avgs, vec![70, 85]);

    let scored = join(name, ids, scores, avgs).unwrap();
    assert_eq!(scored.anilist_id, vec![1, 2]);
    assert_eq!(scored.global_avg_score, vec![70, 85]);
    let ratio = compute_taste_ratio(&scored).unwrap();
    assert_eq!(ratio.user_sum, 170);
    assert_eq!(ratio.avg_sum, 155);
    let value = ratio.user_sum as f64 / ratio.avg_sum as f64;
    assert!((value - 1.0967741935483871).abs() < 1e-12);
}
