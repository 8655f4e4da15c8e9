use logwatcher::event::AppEvent;
use logwatcher::llm::{
    choose_summary, host_or_empty, log_line, no_proxy_host, read_script_content, request_body,
    request_entry, request_entry_of, response_entry, response_entry_of, script_candidates,
    summary_entry, summary_event, summary_from_response, user_message, LlmError,
};
use logwatcher::path::FilePath;
use logwatcher::text::allows_truncation;

#[test]
fn read_script_content_nonexistent_path() {
    let cmd = "node /nonexistent/path/file.js";
    assert_eq!(script_candidates(cmd), vec!["/nonexistent/path/file.js"]);
    let result = read_script_content(cmd, &vec![None]);
    assert!(result.is_none());
}

#[test]
fn read_script_content_no_absolute_paths() {
    let cmd = "echo hello world";
    assert!(script_candidates(cmd).is_empty());
    let result = read_script_content(cmd, &Vec::new());
    assert!(result.is_none());
}

#[test]
fn read_script_content_finds_file() {
    let script = "/tmp/script.sh";
    let cmd = format!("bash {}", script);
    let contents = vec![Some("#!/bin/bash\necho hello".to_string())];
    let result = read_script_content(&cmd, &contents);
    assert!(result.is_some());
    let (path, content) = result.unwrap();
    assert_eq!(path, script);
    assert!(content.contains("echo hello"));
    assert_eq!(content, "#!/bin/bash\necho hello");
}

#[test]
fn read_script_content_truncates_large_file() {
    let large_content = "x".repeat(20_000);
    let result = read_script_content("bash /tmp/script.sh", &vec![Some(large_content)]);
    assert!(result.is_some());
    let (_, content) = result.unwrap();
    assert!(content.ends_with("...(truncated)"));
    assert!(content.len() < 20_000);
    assert_eq!(content.len(), 10_000 + "...(truncated)".len());
}

#[test]
fn a_script_at_the_limit_is_kept() {
    let content = "y".repeat(10_000);
    let result = read_script_content("bash /s", &vec![Some(content.clone())]).unwrap();
    assert_eq!(result.1, content);
}

#[test]
fn the_first_readable_script_counts() {
    let cmd = "env /a  sh\t/b\u{a0}/c ./d x/e /";
    assert_eq!(script_candidates(cmd), vec!["/a", "/b", "/c", "/"]);
    let contents = vec![None, Some("bee".to_string()), Some("sea".to_string())];
    assert_eq!(
        read_script_content(cmd, &contents),
        Some(("/b".to_string(), "bee".to_string()))
    );
    assert_eq!(read_script_content(cmd, &vec![None, None]), None);
}

#[test]
fn words_agree_with_std() {
    for cmd in ["", "  ", "/a", " /a ", "/a\u{2003}/b", "\u{85}/a\u{1680}b\u{3000}/c\n", "a/b /"] {
        let expected: Vec<String> = cmd
            .split_whitespace()
            .filter(|w| std::path::Path::new(w).is_absolute())
            .map(|w| w.to_string())
            .collect();
        assert_eq!(script_candidates(cmd), expected);
    }
}

#[test]
fn texts_are_cut_between_characters_alone() {
    assert!(allows_truncation("abc", 2, 2));
    assert!(!allows_truncation("a\u{e4}c", 2, 2));
    assert!(allows_truncation("a\u{e4}c", 3, 3));
    assert!(allows_truncation("a\u{e4}", 3, 2));
}

#[test]
fn questions_hold_the_command_and_the_script() {
    assert_eq!(user_message("make all", &None), "Command line: make all");
    assert_eq!(
        user_message("sh /x", &Some(("/x".to_string(), "echo\n".to_string()))),
        "Command line: sh /x\n\nScript file (/x):\necho\n"
    );
}

/// The request as a JSON document.
fn parsed(body: &str) -> serde_json::Value {
    serde_json::from_str(body).unwrap()
}

#[test]
fn requests_hold_the_question() {
    let questions = [
        "plain",
        "quotes \" and \\ backslashes",
        "lines\nand\ttabs\r",
        "controls \u{0}\u{1}\u{8}\u{b}\u{c}\u{1f}\u{7f}\u{80}",
        "\u{e4}\u{20ac}\u{1f600} / '",
        "",
    ];
    for question in questions {
        let body = parsed(&request_body(question));
        assert_eq!(body["max_tokens"].as_u64(), Some(16384));
        let messages = body["messages"].as_array().unwrap();
        assert_eq!(messages.len(), 2);
        assert_eq!(messages[0]["role"].as_str(), Some("system"));
        assert_eq!(messages[1]["role"].as_str(), Some("user"));
        assert_eq!(messages[1]["content"].as_str(), Some(question));
        assert_eq!(body.as_object().unwrap().len(), 2);
        assert_eq!(request_body(question), body.to_string());
    }
    let body = parsed(&request_body("x"));
    assert!(body["messages"][0]["content"].as_str().unwrap().starts_with("You are a Unix process"));
}

#[test]
fn requests_are_written_compactly() {
    let body = request_body("a\u{1}\"\n");
    assert!(body.starts_with("{\"max_tokens\":16384,\"messages\":[{\"content\":\"You are a Unix"));
    assert!(body.ends_with("{\"content\":\"a\\u0001\\\"\\n\",\"role\":\"user\"}]}"));
}

fn summary_of(response: &str) -> Result<String, LlmError> {
    summary_from_response(response.as_bytes())
}

#[test]
fn summaries_come_from_the_content_first() {
    let both = "{\"choices\":[{\"message\":{\"content\":\" runs tests \\n\",\
                \"reasoning_content\":\"thinks\"}}]}";
    assert_eq!(summary_of(both), Ok("runs tests".to_string()));
    let empty = "{\"choices\":[{\"message\":{\"content\":\"\",\"reasoning_content\":\" thinks\"}}]}";
    assert_eq!(summary_of(empty), Ok("thinks".to_string()));
    let null = "{\"choices\":[{\"message\":{\"content\":null,\"reasoning_content\":\"thinks\"}}]}";
    assert_eq!(summary_of(null), Ok("thinks".to_string()));
    let blank = "{\"choices\":[{\"message\":{\"content\":\"  \",\"reasoning_content\":\"x\"}}]}";
    assert_eq!(summary_of(blank), Ok("".to_string()));
}

#[test]
fn responses_without_a_message_are_errors() {
    assert_eq!(summary_of("{}"), Err(LlmError::UnexpectedFormat));
    assert_eq!(summary_of("{\"choices\":[]}"), Err(LlmError::UnexpectedFormat));
    assert_eq!(summary_of("[1,2]"), Err(LlmError::UnexpectedFormat));
    assert_eq!(
        summary_of("{\"choices\":[{\"message\":{\"content\":7}}]}"),
        Err(LlmError::UnexpectedFormat)
    );
    assert_eq!(
        summary_of("{\"choices\":[{\"message\":{\"content\":\"\"}}]}"),
        Err(LlmError::UnexpectedFormat)
    );
    assert_eq!(LlmError::UnexpectedFormat.message(), "unexpected LLM response format");
}

#[test]
fn responses_that_are_not_json_are_errors() {
    assert_eq!(summary_of("<html>"), Err(LlmError::InvalidJson));
    assert_eq!(summary_from_response(&[b'"', 0xff, b'"']), Err(LlmError::InvalidJson));
    assert_eq!(LlmError::InvalidJson.message(), "LLM response is not JSON");
}

#[test]
fn summaries_are_chosen_and_trimmed() {
    let text = |t: &str| Some(t.to_string());
    assert_eq!(choose_summary(text("\u{2003}a b\u{a0}"), None), Ok("a b".to_string()));
    assert_eq!(choose_summary(text(""), text("r")), Ok("r".to_string()));
    assert_eq!(choose_summary(None, text(" ")), Ok("".to_string()));
    assert_eq!(choose_summary(None, None), Err(LlmError::UnexpectedFormat));
    assert_eq!(choose_summary(text(""), None), Err(LlmError::UnexpectedFormat));
}

#[test]
fn only_a_summary_makes_an_event() {
    let path = FilePath::from_text("/tmp/a");
    match summary_event(path, Ok("builds".to_string())) {
        Some(AppEvent::ProcessSummaryReady { path, summary }) => {
            assert_eq!(path.display(), "/tmp/a");
            assert_eq!(summary, "builds");
        }
        _ => panic!("no summary"),
    }
    let path = FilePath::from_text("/tmp/a");
    assert!(summary_event(path, Err(LlmError::UnexpectedFormat)).is_none());
}

#[test]
fn hosts_are_taken_from_addresses() {
    assert_eq!(no_proxy_host("https://your-llm/v1/chat/completions"), "your-llm");
    assert_eq!(no_proxy_host("http://user@Example.COM:8080/x"), "example.com");
    assert_eq!(no_proxy_host("not an address"), "");
    assert_eq!(no_proxy_host("data:text/plain,x"), "");
    assert_eq!(host_or_empty(Some("h".to_string())), "h");
    assert_eq!(host_or_empty(None), "");
}

#[test]
fn log_entries_are_written_for_people() {
    assert_eq!(
        request_entry("http://llm", "{\"b\":[1],\"a\":\"x\"}"),
        "REQUEST to http://llm\n{\n  \"a\": \"x\",\n  \"b\": [\n    1\n  ]\n}"
    );
    assert_eq!(request_entry("http://llm", "nonsense"), "REQUEST to http://llm\n");
    assert_eq!(request_entry_of("u", Some("p".to_string())), "REQUEST to u\np");
    assert_eq!(request_entry_of("u", None), "REQUEST to u\n");
    assert_eq!(response_entry(b"{\"a\":1}"), Some("RESPONSE\n{\n  \"a\": 1\n}".to_string()));
    assert_eq!(response_entry(b"{"), None);
    assert_eq!(response_entry_of(Some("p".to_string())), Some("RESPONSE\np".to_string()));
    assert_eq!(response_entry_of(None), None);
    assert_eq!(summary_entry("builds"), "SUMMARY: builds");
    assert_eq!(
        log_line("2024-01-02 03:04:05", "SUMMARY: builds"),
        "[2024-01-02 03:04:05] SUMMARY: builds\n"
    );
}
