use copybara::report::{commit_log, lines, render_commit, render_time, time_line, CommitRecord};

#[test]
fn time_line_with_positive_and_negative_offsets() {
    assert_eq!(render_time("Date:   ", "2015-05-15 00:00:00", 120), "Date:   2015-05-15 00:00:00 +0200");
    assert_eq!(render_time("Date:   ", "2015-05-15 00:00:00", -90), "Date:   2015-05-15 00:00:00 -0130");
    assert_eq!(render_time("", "d", 0), "d +0000");
    assert_eq!(render_time("", "d", 6005), "d +10005");
}

#[test]
fn time_line_uses_chrono_date() {
    assert_eq!(
        time_line("Date:   ", 1431648000, 330),
        Some("Date:   2015-05-15 00:00:00 +0530".to_string())
    );
    assert_eq!(time_line("", 0, -300), Some("1970-01-01 00:00:00 -0500".to_string()));
    assert_eq!(time_line("", i64::MAX, 0), None);
}

#[test]
fn lines_split_like_str_lines() {
    for s in ["", "a", "a\n", "a\nb", "a\r\nb\r\n", "\n\n", "x\r", "one\n\ntwo\n"] {
        let expected: Vec<String> = s.lines().map(|l| l.to_string()).collect();
        assert_eq!(lines(s), expected, "input {:?}", s);
    }
}

fn record(parents: &[&str], message: &str) -> CommitRecord {
    CommitRecord {
        id: "0123456789abcdef0123456789abcdef01234567".to_string(),
        parent_ids: parents.iter().map(|p| p.to_string()).collect(),
        author_name: b"Ada Lovelace".to_vec(),
        author_email: b"ada@example.org".to_vec(),
        seconds: 1431648000,
        offset_minutes: 60,
        message: message.as_bytes().to_vec(),
    }
}

#[test]
fn commit_summary_of_plain_commit() {
    let c = record(&["aaaaaaaaaaaaaaaaaaaa"], "Subject\n\nBody line\n");
    assert_eq!(
        render_commit(&c, "2015-05-15 00:00:00"),
        "commit 0123456789abcdef0123456789abcdef01234567\n\
         Author: Ada Lovelace <ada@example.org>\n\
         Date:   2015-05-15 00:00:00 +0100\n\
         \n    Subject\n    \n    Body line\n\n"
    );
}

#[test]
fn commit_summary_of_merge_lists_short_parents() {
    let c = record(&["1111111111111111", "22222222abc", "333"], "Merge");
    let text = commit_log(&c).unwrap();
    assert_eq!(
        text,
        "commit 0123456789abcdef0123456789abcdef01234567\n\
         Merge: 11111111 22222222 333\n\
         Author: Ada Lovelace <ada@example.org>\n\
         Date:   2015-05-15 00:00:00 +0100\n\
         \n    Merge\n\n"
    );
}

#[test]
fn commit_summary_replaces_invalid_utf8() {
    let mut c = record(&[], "");
    c.author_name = vec![b'A', 0xff];
    c.message = vec![0xc3];
    let text = render_commit(&c, "D");
    assert!(text.contains("Author: A\u{fffd} <ada@example.org>\n"));
    assert!(text.ends_with("\n\n    \u{fffd}\n\n"));
}
