use anilist_taste::aggregate::{compute_taste_ratio, join, sum_scores, AnilistScores};
use anilist_taste::digits::{i64_to_string, u64_to_string};
use anilist_taste::query::{build_batch_query_doc, user_media_query_document};
use anilist_taste::report::{csv_of_rows, parse_csv, ReportRow};

#[test]
fn join_accepts_equal_lengths() {
    let joined = join(
        String::from("Watching"),
        vec![1, 2, 3],
        vec![10, 20, 30],
        vec![40, 50, 60],
    );
    let scored = joined.unwrap();
    assert_eq!(scored.list_type, "Watching");
    assert_eq!(scored.anilist_id, vec![1, 2, 3]);
    assert_eq!(scored.user_score, vec![10, 20, 30]);
    assert_eq!(scored.global_avg_score, vec![40, 50, 60]);
}

#[test]
fn join_rejects_unequal_lengths() {
    assert!(join(String::from("Watching"), vec![1, 2], vec![10, 20], vec![40]).is_none());
    assert!(join(String::from("Watching"), vec![1], vec![10, 20], vec![40]).is_none());
    assert!(join(String::from("Watching"), vec![], vec![], vec![40]).is_none());
}

#[test]
fn join_accepts_all_empty() {
    assert!(join(String::from("Completed"), vec![], vec![], vec![]).is_some());
}

#[test]
fn ratio_of_equal_sums_is_one() {
    let scored = join(String::from("Watching"), vec![1], vec![50], vec![50]).unwrap();
    let ratio = compute_taste_ratio(&scored).unwrap();
    assert_eq!(ratio.user_sum, 50);
    assert_eq!(ratio.avg_sum, 50);
    assert_eq!(ratio.user_sum as f64 / ratio.avg_sum as f64, 1.0);
}

#[test]
fn ratio_with_zero_denominator_is_undefined() {
    let scored = join(String::from("Watching"), vec![1], vec![0], vec![0]).unwrap();
    assert!(compute_taste_ratio(&scored).is_none());
}

#[test]
fn sums_cover_negative_scores() {
    assert_eq!(sum_scores(&vec![i64::MAX, i64::MAX]), 2 * (i64::MAX as i128));
    assert_eq!(sum_scores(&vec![-5, 3, -4]), -6);
    assert_eq!(sum_scores(&vec![]), 0);
}

#[test]
fn csv_round_trip_reproduces_triples() {
    let scored = join(
        String::from("Completed"),
        vec![17, -3, 40000],
        vec![100, 0, -25],
        vec![73, 64, 81],
    )
    .unwrap();
    let rows = scored.report_rows();
    let text = csv_of_rows(&rows);
    let parsed = parse_csv(text.as_str()).unwrap();
    assert_eq!(parsed.len(), 3);
    for (orig, back) in rows.iter().zip(parsed.iter()) {
        assert_eq!(back.list_type, orig.list_type);
        assert_eq!(back.anilist_id, orig.anilist_id);
        assert_eq!(back.user_score, orig.user_score);
        assert_eq!(back.global_avg_score, orig.global_avg_score);
    }
}

#[test]
fn csv_text_matches_expected_layout() {
    let rows = vec![ReportRow {
        list_type: String::from("Watching"),
        anilist_id: 1,
        user_score: 80,
        global_avg_score: 70,
    }];
    let text = csv_of_rows(&rows);
    assert_eq!(
        text,
        "list_type,anilist_id,user_score,global_avg_score\nWatching,1,80,70\n"
    );
}

#[test]
fn csv_without_header_is_rejected() {
    assert!(parse_csv("Watching,1,80,70\n").is_none());
}

#[test]
fn csv_with_short_line_is_rejected() {
    let text = "list_type,anilist_id,user_score,global_avg_score\nWatching,1,80\n";
    assert!(parse_csv(text).is_none());
}

#[test]
fn csv_with_bad_number_is_rejected() {
    let text = "list_type,anilist_id,user_score,global_avg_score\nWatching,x,80,70\n";
    assert!(parse_csv(text).is_none());
}

#[test]
fn csv_with_unterminated_line_is_rejected() {
    let text = "list_type,anilist_id,user_score,global_avg_score\nWatching,1,80,70";
    assert!(parse_csv(text).is_none());
}

#[test]
fn empty_report_round_trips() {
    let empty: AnilistScores = join(String::from("Watching"), vec![], vec![], vec![]).unwrap();
    let rows = empty.report_rows();
    let text = csv_of_rows(&rows);
    assert_eq!(text, "list_type,anilist_id,user_score,global_avg_score\n");
    assert!(parse_csv(text.as_str()).unwrap().is_empty());
}

#[test]
fn decimal_rendering_is_canonical() {
    assert_eq!(u64_to_string(0), "0");
    assert_eq!(u64_to_string(10), "10");
    assert_eq!(u64_to_string(u64::MAX), "18446744073709551615");
    assert_eq!(i64_to_string(-45), "-45");
    assert_eq!(i64_to_string(i64::MIN), "-9223372036854775808");
    assert_eq!(i64_to_string(7), "7");
}

#[test]
fn list_query_document_is_fixed() {
    let doc = user_media_query_document();
    assert!(doc.contains("MediaListCollection"));
    assert!(doc.contains("$username: String"));
    assert!(doc.contains("mediaId"));
}

#[test]
fn batch_query_aliases_each_id_by_position() {
    let doc = build_batch_query_doc(&vec![5, 123]);
    let expected = "query ($media: MediaType) {\n    query_0: Media (id: 5, type: $media) {\n        averageScore\n    }\n\n    query_1: Media (id: 123, type: $media) {\n        averageScore\n    }\n\n}\n";
    assert_eq!(doc, expected);
}

#[test]
fn empty_id_batch_is_syntactically_empty() {
    let doc = build_batch_query_doc(&vec![]);
    assert_eq!(doc, "query ($media: MediaType) {\n}\n");
}
