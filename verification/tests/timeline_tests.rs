use recall_cli::storage::Screenshot;
use recall_cli::timeline::{
    build_timeline_html, escape_html, export_filename, export_folder_name, export_pad_width,
    free_export_folder,
    plan_export, ExportedEntry,
};

fn shot(id: i64, ts: &str, ocr: Option<&str>, png: bool) -> Screenshot {
    Screenshot {
        id,
        timestamp: ts.to_string(),
        width: 1920,
        height: 1080,
        ocr_text: ocr.map(|s| s.to_string()),
        png_bytes: if png { Some(vec![1, 2, 3]) } else { None },
    }
}

fn entry(id: i64, ts: &str, ocr: &str, file: &str) -> ExportedEntry {
    ExportedEntry {
        id,
        timestamp: ts.to_string(),
        width: 800,
        height: 600,
        ocr_text: ocr.to_string(),
        filename: file.to_string(),
    }
}

/// Reads back the five entities that escaping writes.
fn unescape(s: &str) -> String {
    s.replace("&lt;", "<")
        .replace("&gt;", ">")
        .replace("&quot;", "\"")
        .replace("&#39;", "'")
        .replace("&amp;", "&")
}

#[test]
fn escape_html_replaces_markup_characters() {
    assert_eq!(
        escape_html("<a href=\"x\">Tom & Jerry's</a>"),
        "&lt;a href=&quot;x&quot;&gt;Tom &amp; Jerry&#39;s&lt;/a&gt;"
    );
    assert_eq!(escape_html("plain äöü"), "plain äöü");
    assert_eq!(escape_html(""), "");
    assert_eq!(escape_html("&amp;"), "&amp;amp;");
}

#[test]
fn page_structure_does_not_depend_on_texts() {
    let marks = |h: &str| h.chars().filter(|c| matches!(c, '<' | '>' | '"' | '\'')).collect::<String>();
    let a = vec![entry(1, "2024-01-01T00:00:00+00:00", "plain", "a.png")];
    let b = vec![entry(1, "2024-01-01T00:00:00+00:00", "</div><script>'x'\"", "\"><b>.png")];
    assert_eq!(marks(&build_timeline_html(&a)), marks(&build_timeline_html(&b)));
}

#[test]
fn escaped_text_reads_back_and_holds_no_markup() {
    let original = "if a < b && c > \"d\" then 'e' &lt;";
    let escaped = escape_html(original);
    assert!(!escaped.contains(['<', '>', '"', '\'']));
    assert_eq!(unescape(&escaped), original);
}

#[test]
fn timeline_page_counts_and_lists_entries() {
    let entries = vec![
        entry(7, "2024-01-02T10:00:00+00:00", "  hello <world>\n", "recall_0007_x.png"),
        entry(8, "2024-01-02T11:00:00+00:00", " \t\n", "a&b.png"),
    ];
    let html = build_timeline_html(&entries);
    assert!(html.starts_with("<!DOCTYPE html>\n<html lang=\"de\">"));
    assert!(html.contains("<title>Recall Timeline (2 Screenshots)</title>"));
    assert!(html.contains("<p>2 Screenshots</p>"));
    assert!(html.ends_with("</html>"));
    assert!(html.contains("<div class=\"item\" data-search=\"  hello &lt;world&gt;\n\">"));
    assert!(html.contains("<span class=\"id\">Screenshot #7</span>"));
    assert!(html.contains("<span class=\"ts\">2024-01-02 10:00:00 +00:00</span>"));
    assert!(html.contains("<span class=\"dim\">800x600</span>"));
    assert!(html.contains("<a class=\"thumb\" href=\"recall_0007_x.png\" target=\"_blank\""));
    assert!(html.contains("<img src=\"a&amp;b.png\" alt=\"Screenshot #8\" loading=\"lazy\">"));
    assert!(html.contains(
        "<div class=\"ocr\"><pre class=\"ocr-text\">hello &lt;world&gt;</pre><button class=\"ocr-more\" type=\"button\">Mehr ...</button></div>"
    ));
    assert!(html.contains("<div class=\"ocr\"><em>Kein OCR-Text erkannt.</em></div>"));
    assert!(html.find("Screenshot #7").unwrap() < html.find("Screenshot #8").unwrap());
    assert!(html.contains("const input = document.getElementById(\"search\");"));
    assert!(html.contains("* { box-sizing: border-box; margin: 0; padding: 0; }"));
    assert!(html.contains("-webkit-line-clamp: 3;"));
    assert!(html.contains("it.dataset.search.toLowerCase().includes(q)"));
}

#[test]
fn timeline_page_of_no_entries() {
    let html = build_timeline_html(&[]);
    assert!(html.contains("<title>Recall Timeline (0 Screenshots)</title>"));
    assert!(html.contains("<div class=\"timeline\" id=\"timeline\"></div>"));
}

#[test]
fn export_file_names_pad_ids_and_clean_timestamps() {
    assert_eq!(
        export_filename(7, "2024-01-02T10:00:00+00:00", 4),
        "recall_0007_2024-01-02T10_00_00_00_00.png"
    );
    assert_eq!(export_filename(7, "a b", 6), "recall_000007_a_b.png");
    assert_eq!(export_filename(-3, "t", 4), format!("recall_{:04}_t.png", -3));
    assert_eq!(export_filename(123456, "t", 4), "recall_123456_t.png");
}

#[test]
fn pad_width_follows_the_largest_image_id() {
    let ss = vec![shot(3, "a", None, true), shot(123456, "b", None, false), shot(98765, "c", None, true)];
    assert_eq!(export_pad_width(&ss), 5);
    assert_eq!(export_pad_width(&[]), 4);
    assert_eq!(export_pad_width(&[shot(-123456, "a", None, true)]), 7);
}

#[test]
fn export_takes_images_within_range_sorted_by_timestamp() {
    let ss = vec![
        shot(1, "2024-03-01T09:00:00+00:00", Some("one"), true),
        shot(2, "2024-01-01T09:00:00+00:00", None, true),
        shot(3, "2024-02-01T09:00:00+00:00", Some("three"), false),
        shot(4, "2024-02-15T09:00:00+00:00", Some("four"), true),
        shot(5, "2024-12-31T09:00:00+00:00", Some("five"), true),
    ];
    let plan = plan_export(&ss, Some("2024-01-15"), Some("2024-06"));
    let sources: Vec<usize> = plan.files.iter().map(|f| f.source).collect();
    assert_eq!(sources, vec![0, 3]);
    assert_eq!(plan.files[0].filename, "recall_0001_2024-03-01T09_00_00_00_00.png");
    let ids: Vec<i64> = plan.entries.iter().map(|e| e.id).collect();
    assert_eq!(ids, vec![4, 1]);
    assert_eq!(plan.entries[0].ocr_text, "four");
    assert_eq!(plan.entries[0].filename, "recall_0004_2024-02-15T09_00_00_00_00.png");
    let html = plan.index_html.unwrap();
    assert_eq!(html, build_timeline_html(&plan.entries));
    assert!(html.contains("(2 Screenshots)"));
}

#[test]
fn export_range_takes_in_the_whole_last_day() {
    let ss = vec![
        shot(1, "2026-06-30T23:59:59+00:00", None, true),
        shot(2, "2026-07-01T00:00:00+00:00", None, true),
        shot(3, "2026-07-31T12:00:00+00:00", None, true),
        shot(4, "2026-08-01T00:00:00+00:00", None, true),
    ];
    let plan = plan_export(&ss, Some("2026-07-01"), Some("2026-07-31"));
    let ids: Vec<i64> = plan.entries.iter().map(|e| e.id).collect();
    assert_eq!(ids, vec![2, 3]);
    let plan = plan_export(&ss, None, Some("2026-07"));
    assert_eq!(plan.entries.len(), 3);
}

#[test]
fn export_bounds_are_inclusive() {
    let ss = vec![shot(1, "2024-01-01", None, true), shot(2, "2024-01-02", None, true)];
    assert_eq!(plan_export(&ss, Some("2024-01-01"), Some("2024-01-01")).entries.len(), 1);
    assert_eq!(plan_export(&ss, None, Some("2024-01-01T")).entries.len(), 1);
    assert_eq!(plan_export(&ss, Some("2024-01-02"), None).entries.len(), 1);
    assert_eq!(plan_export(&ss, None, None).entries.len(), 2);
}

#[test]
fn export_keeps_input_order_among_equal_timestamps() {
    let ss = vec![
        shot(5, "2024-01-02", None, true),
        shot(1, "2024-01-01", None, true),
        shot(9, "2024-01-02", None, true),
        shot(2, "2024-01-01", None, true),
    ];
    let plan = plan_export(&ss, None, None);
    let ids: Vec<i64> = plan.entries.iter().map(|e| e.id).collect();
    assert_eq!(ids, vec![1, 2, 5, 9]);
    let ts: Vec<&str> = plan.entries.iter().map(|e| e.timestamp.as_str()).collect();
    assert!(ts.windows(2).all(|w| w[0] <= w[1]));
}

#[test]
fn export_of_nothing_writes_no_page() {
    let ss = vec![shot(1, "2024-01-01", None, false)];
    let plan = plan_export(&ss, None, None);
    assert!(plan.files.is_empty());
    assert!(plan.entries.is_empty());
    assert!(plan.index_html.is_none());
}

#[test]
fn exported_file_names_sort_like_ids() {
    let ss: Vec<Screenshot> = [3i64, 10, 250, 9, 1200]
        .iter()
        .map(|&id| shot(id, "2024-05-05T10:00:00+00:00", None, true))
        .collect();
    let plan = plan_export(&ss, None, None);
    let mut by_name: Vec<(String, i64)> =
        plan.files.iter().map(|f| (f.filename.clone(), ss[f.source].id)).collect();
    by_name.sort();
    let ids: Vec<i64> = by_name.iter().map(|(_, id)| *id).collect();
    assert_eq!(ids, vec![3, 9, 10, 250, 1200]);
}

#[test]
fn export_folder_skips_taken_names() {
    let taken = vec!["2026-08-05-0945".to_string(), "2026-08-05-0945-2".to_string(), "other".to_string()];
    assert_eq!(free_export_folder(2026, 8, 5, 9, 45, &taken).unwrap(), "2026-08-05-0945-3");
    assert_eq!(free_export_folder(2026, 8, 5, 9, 46, &taken).unwrap(), "2026-08-05-0946");
}

#[test]
fn export_folders_are_stamped_and_numbered() {
    assert_eq!(export_folder_name(2026, 8, 5, 9, 45, 0), "2026-08-05-0945");
    assert_eq!(export_folder_name(2026, 8, 5, 9, 45, 1), "2026-08-05-0945-2");
    assert_eq!(export_folder_name(2026, 12, 31, 23, 59, 9), "2026-12-31-2359-10");
    assert_ne!(export_folder_name(2026, 8, 5, 9, 45, 0), export_folder_name(2026, 8, 5, 9, 45, 1));
}
