use redirects::codec::{make_redirect_html, parse_redirect_html};
use redirects::extract::{first_and_third, find_status, retweet_row, retweet_rows};
use redirects::digest::{compute_digest, compute_digest_gz, Computer, DigestError};
use redirects::merge::{compare_lines, merge_insert, sorted_unique};
use redirects::record::{record_digest, split_record};
use redirects::shard::{
    file_prefixes, is_valid_file_name, is_valid_path, is_valid_shard_id, shard_file_name, shard_id,
};
use redirects::store::{check_store, group_by_shard, has_valid_prefix, lines_of_shard};
use redirects::tweet::parse_tweet_url;
use redirects::validate::{validate, validate_line};
use std::io::Write;

fn lines(v: &[&str]) -> Vec<String> {
    v.iter().map(|s| s.to_string()).collect()
}

fn record(url: &str) -> String {
    format!("{},{}", compute_digest(make_redirect_html(url).as_bytes()), url)
}

#[test]
fn duplicate_batch_leaves_shard_unchanged() {
    let existing = lines(&["A1,http://x"]);
    let r = merge_insert(&existing, &lines(&["A1,http://x"]));
    assert_eq!(r, existing);
}

#[test]
fn empty_shard_receives_sorted_batch() {
    let r = merge_insert(&vec![], &lines(&["A2,http://b", "A1,http://a"]));
    assert_eq!(r, lines(&["A1,http://a", "A2,http://b"]));
}

#[test]
fn merging_twice_equals_merging_once() {
    let existing = lines(&["C1,http://a", "C5,http://e"]);
    let batch = lines(&["C3,http://c", "C1,http://a", "C9,http://z", "C3,http://c"]);
    let once = merge_insert(&existing, &batch);
    let twice = merge_insert(&once, &batch);
    assert_eq!(once, twice);
    assert_eq!(once, lines(&["C1,http://a", "C3,http://c", "C5,http://e", "C9,http://z"]));
}

#[test]
fn merge_output_is_strictly_ascending() {
    let cases: Vec<(Vec<String>, Vec<String>)> = vec![
        (vec![], lines(&["D3,c", "D1,a", "D2,b"])),
        (lines(&["D1,a", "D2,b"]), vec![]),
        (lines(&["D1,a", "D2,b"]), lines(&["D2,b", "D1,a"])),
        (lines(&["D1,a", "D3,c"]), lines(&["D0,z", "D2,b", "D4,d"])),
    ];
    for (existing, batch) in cases {
        let r = merge_insert(&existing, &batch);
        for w in r.windows(2) {
            assert!(w[0] < w[1]);
        }
    }
}

#[test]
fn merge_keeps_every_existing_line() {
    let existing = lines(&["E1,a", "E4,d", "E7,g"]);
    let r = merge_insert(&existing, &lines(&["E5,e", "E0,z", "E4,d"]));
    for l in &existing {
        assert!(r.contains(l));
    }
    assert_eq!(r, lines(&["E0,z", "E1,a", "E4,d", "E5,e", "E7,g"]));
}

#[test]
fn sorted_unique_orders_and_removes_repeats() {
    let r = sorted_unique(&lines(&["b", "a", "b", "ab", ""]));
    assert_eq!(r, lines(&["", "a", "ab", "b"]));
}

#[test]
fn compare_lines_follows_string_order() {
    let a = "A1".to_string();
    let b = "A2".to_string();
    let c = "é".to_string();
    let d = "z".to_string();
    assert_eq!(compare_lines(&a, &b), -1);
    assert_eq!(compare_lines(&b, &a), 1);
    assert_eq!(compare_lines(&a, &a), 0);
    assert_eq!(compare_lines(&c, &d), 1);
    assert_eq!(compare_lines(&"A".to_string(), &a), -1);
}

#[test]
fn redirect_document_has_the_fixed_template() {
    assert_eq!(
        make_redirect_html("http://x"),
        "<html><body>You are being <a href=\"http://x\">redirected</a>.</body></html>"
    );
}

#[test]
fn parse_inverts_render() {
    for url in ["http://x", "https://example.com/a?b=c,d", "h", ""] {
        assert_eq!(parse_redirect_html(&make_redirect_html(url)), Some(url.to_string()));
    }
}

#[test]
fn parse_rejects_other_documents() {
    assert_eq!(parse_redirect_html(&make_redirect_html("a\"b")), None);
    assert_eq!(parse_redirect_html("<html></html>"), None);
    let doc = format!("{}\n", make_redirect_html("http://x"));
    assert_eq!(parse_redirect_html(&doc), None);
}

#[test]
fn digest_of_known_inputs() {
    assert_eq!(compute_digest(b""), "3I42H3S6NNFQ2MSVX7XZKYAYSCX5QBYJ");
    assert_eq!(compute_digest(b"hello"), "VL2MMHO4YXUKFWV63YHTWSBM3GXKSQ2N");
    assert_eq!(
        compute_digest(make_redirect_html("http://x").as_bytes()),
        "MAUPHO6DQZLF2DWCMFLLLJE6E27UWINU"
    );
}

#[test]
fn digest_of_rendering_is_stable() {
    let doc = make_redirect_html("http://example.com/a");
    let first = compute_digest(doc.as_bytes());
    let second = compute_digest(doc.as_bytes());
    assert_eq!(first, second);
    assert_eq!(first, "TEQE3FYDZ5ZD4HHMMXL5MZQPBY5KTGYN");
}

#[test]
fn computer_resets_between_inputs() {
    let mut computer = Computer::new();
    assert_eq!(computer.digest(b"hello"), "VL2MMHO4YXUKFWV63YHTWSBM3GXKSQ2N");
    assert_eq!(computer.digest(b""), "3I42H3S6NNFQ2MSVX7XZKYAYSCX5QBYJ");
    let mut other = Computer::default();
    assert_eq!(other.digest(b"hello"), "VL2MMHO4YXUKFWV63YHTWSBM3GXKSQ2N");
}

#[test]
fn digest_of_gzip_content() {
    let mut enc = flate2::write::GzEncoder::new(Vec::new(), flate2::Compression::default());
    enc.write_all(b"hello").unwrap();
    let gz = enc.finish().unwrap();
    assert_eq!(compute_digest_gz(&gz), Ok("VL2MMHO4YXUKFWV63YHTWSBM3GXKSQ2N".to_string()));
    assert_eq!(compute_digest_gz(b"not gzip"), Err(DigestError::Decompress));
}

#[test]
fn digests_start_with_a_shard_id() {
    for url in ["http://a", "http://b", "http://x", "https://example.org/", "u"] {
        let d = compute_digest(make_redirect_html(url).as_bytes());
        assert_eq!(d.len(), 32);
        assert!(is_valid_shard_id(d.chars().next().unwrap()));
    }
}

#[test]
fn shard_ids_are_exactly_the_alphabet() {
    for c in ['0', '1', '8', '9', 'a', 'z', ',', '@', '[', 'É'] {
        assert!(!is_valid_shard_id(c));
    }
    for c in "234567ABCDEFGHIJKLMNOPQRSTUVWXYZ".chars() {
        assert!(is_valid_shard_id(c));
    }
}

#[test]
fn file_prefixes_are_sorted_ids() {
    let p = file_prefixes();
    assert_eq!(p.len(), 32);
    assert_eq!(p[0], "2");
    assert_eq!(p[6], "A");
    assert_eq!(p[31], "Z");
    assert_eq!(p.concat(), "234567ABCDEFGHIJKLMNOPQRSTUVWXYZ");
}

#[test]
fn shard_of_digest_and_file_names() {
    assert_eq!(shard_id("MAUPHO6D"), Some('M'));
    assert_eq!(shard_id(""), None);
    assert_eq!(shard_file_name('A'), "redirects-A.csv");
    assert!(is_valid_file_name("redirects-A.csv"));
    assert!(is_valid_file_name("redirects-7.csv"));
    assert!(!is_valid_file_name("redirects-1.csv"));
    assert!(!is_valid_file_name("redirects-AB.csv"));
    assert!(!is_valid_file_name("redirects-A.txt"));
    assert!(!is_valid_file_name("redirects-A_csv"));
    assert!(!is_valid_file_name("redirects-a.csv"));
    assert!(is_valid_path("data/redirects-Z.csv"));
    assert!(!is_valid_path("data/notes.txt"));
    assert!(!is_valid_path("data/.."));
}

#[test]
fn store_with_thirty_one_files_is_flagged() {
    let mut paths: Vec<String> = file_prefixes()
        .iter()
        .map(|p| format!("data/redirects-{}.csv", p))
        .collect();
    let (count_ok, bad) = check_store(&paths);
    assert!(count_ok);
    assert!(bad.is_empty());
    paths.pop();
    let (count_ok, bad) = check_store(&paths);
    assert!(!count_ok);
    assert!(bad.is_empty());
    paths.push("data/extra.txt".to_string());
    let (_, bad) = check_store(&paths);
    assert_eq!(bad, lines(&["data/extra.txt"]));
}

#[test]
fn equal_adjacent_lines_are_unsorted() {
    let (_, is_sorted) = validate(&lines(&["B1,url1", "B1,url1"]));
    assert!(!is_sorted);
    let (_, is_sorted) = validate(&lines(&["B1,url1", "B0,url1"]));
    assert!(!is_sorted);
    let (_, is_sorted) = validate(&lines(&["B0,url1", "B1,url1"]));
    assert!(is_sorted);
    let (bad, is_sorted) = validate(&vec![]);
    assert!(bad.is_empty() && is_sorted);
}

#[test]
fn corrupted_digest_is_reported() {
    let mut shard = vec![record("http://a"), record("http://b"), record("http://c")];
    shard.sort();
    let (bad, is_sorted) = validate(&shard);
    assert!(bad.is_empty());
    assert!(is_sorted);
    let mut corrupted = shard.clone();
    let mut bytes = corrupted[1].clone().into_bytes();
    bytes[3] = if bytes[3] == b'A' { b'B' } else { b'A' };
    corrupted[1] = String::from_utf8(bytes).unwrap();
    let (bad, _) = validate(&corrupted);
    assert_eq!(bad, vec![corrupted[1].clone()]);
}

#[test]
fn malformed_record_is_reported() {
    let (bad, _) = validate(&lines(&["no comma here"]));
    assert_eq!(bad, lines(&["no comma here"]));
    let mut computer = Computer::new();
    assert!(validate_line(&mut computer, &record("http://x")));
    assert!(!validate_line(&mut computer, "MAUPHO6DQZLF2DWCMFLLLJE6E27UWINU,http://y"));
    assert!(validate_line(&mut computer, "MAUPHO6DQZLF2DWCMFLLLJE6E27UWINU,http://x"));
}

#[test]
fn records_split_at_commas() {
    assert_eq!(split_record("D,u"), Some(("D".to_string(), "u".to_string())));
    assert_eq!(split_record("D,u,v"), Some(("D".to_string(), "u".to_string())));
    assert_eq!(split_record("D,"), Some(("D".to_string(), "".to_string())));
    assert_eq!(split_record("Du"), None);
    assert_eq!(record_digest("D,u"), "D");
    assert_eq!(record_digest("Du"), "Du");
}

#[test]
fn ingestion_groups_by_shard() {
    let input = lines(&["B2,x", "A1,y", "B1,z"]);
    let groups = group_by_shard(&input).unwrap();
    assert_eq!(groups.len(), 32);
    assert_eq!(groups[6], lines(&["A1,y"]));
    assert_eq!(groups[7], lines(&["B2,x", "B1,z"]));
    assert!(groups[0].is_empty());
    assert_eq!(lines_of_shard(&input, 'B'), lines(&["B2,x", "B1,z"]));
    assert_eq!(group_by_shard(&lines(&["A1,y", "11,q", "a,b"])), Err("11,q".to_string()));
    assert_eq!(group_by_shard(&lines(&["A1,y", ""])), Err("".to_string()));
    assert!(has_valid_prefix("Z,q"));
    assert!(!has_valid_prefix("z,q"));
}

#[test]
fn tweet_urls_are_recognised() {
    assert_eq!(
        parse_tweet_url("http://twitter.com/alice/status/123"),
        Some(("alice".to_string(), 123))
    );
    assert_eq!(
        parse_tweet_url("http://twitter.com/alice/status/123?x=1"),
        Some(("alice".to_string(), 123))
    );
    assert_eq!(parse_tweet_url("http://example.com/alice/status/123"), None);
}

#[test]
fn tweet_url_edge_cases() {
    assert_eq!(
        parse_tweet_url("https://twitter.com/bob/status/18446744073709551615"),
        Some(("bob".to_string(), u64::MAX))
    );
    assert_eq!(parse_tweet_url("https://twitter.com/bob/status/18446744073709551616"), None);
    assert_eq!(parse_tweet_url("https://twitter.com/bob/status/12a"), None);
    assert_eq!(parse_tweet_url("https://twitter.com/bob/status/"), None);
    assert_eq!(parse_tweet_url("https://twitter.com//status/1"), None);
    assert_eq!(parse_tweet_url("https://twitter.com/bob/status/1?"), None);
    assert_eq!(parse_tweet_url("https://twitter.com/bob/status/1?a\nb"), None);
    assert_eq!(parse_tweet_url("ftp://twitter.com/bob/status/1"), None);
    assert_eq!(parse_tweet_url("https://twitter.com/a/b/status/1"), None);
}

#[test]
fn retweets_are_joined_by_digest() {
    let store = lines(&[
        "D1,http://twitter.com/alice/status/123",
        "D2,http://example.com/x",
        "D3,https://twitter.com/carol/status/7?s=20",
        "D3,http://twitter.com/dave/status/8",
    ]);
    let log = lines(&[
        "http://twitter.com/bob/status/456,x,D1",
        "http://twitter.com/bob/status/457,x,D2",
        "http://example.com/bob/status/458,x,D1",
        "http://twitter.com/erin/status/9,x,D3,extra",
        "http://twitter.com/bob/status/459,D1",
    ]);
    let rows = retweet_rows(&store, &log);
    assert_eq!(rows.len(), 2);
    assert_eq!(rows[0].author, "bob");
    assert_eq!(rows[0].retweeted_author, "alice");
    assert_eq!(rows[0].status_id, 456);
    assert_eq!(rows[0].retweeted_status_id, 123);
    assert_eq!(rows[1].author, "erin");
    assert_eq!(rows[1].retweeted_author, "dave");
    assert_eq!(rows[1].retweeted_status_id, 8);
    assert_eq!(find_status(&store, &"D2".to_string()), None);
    assert_eq!(retweet_row(&store, "http://twitter.com/bob/status/1,x,D9"), None);
}

#[test]
fn digests_use_only_the_base32_alphabet() {
    for url in ["http://a", "http://b", "", "https://example.org/x,y"] {
        let d = compute_digest(make_redirect_html(url).as_bytes());
        assert_eq!(d.len(), 32);
        assert!(d.chars().all(|c| ('A'..='Z').contains(&c) || ('2'..='7').contains(&c)));
    }
}

#[test]
fn clean_shard_stays_clean_after_merge() {
    let mut shard = vec![record("http://a"), record("http://b")];
    shard.sort();
    let batch = vec![record("http://c"), record("http://a"), record("http://c")];
    let merged = merge_insert(&shard, &batch);
    let (bad, is_sorted) = validate(&merged);
    assert!(bad.is_empty());
    assert!(is_sorted);
    assert_eq!(merged.len(), 3);
}

#[test]
fn log_lines_need_three_fields() {
    assert_eq!(
        first_and_third("u,x,D1,more"),
        Some(("u".to_string(), "D1".to_string()))
    );
    assert_eq!(first_and_third("u,D1"), None);
}
