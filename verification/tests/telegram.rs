use courier::channels::telegram::{split_message, TelegramChannel, MAX_MESSAGE_LEN};
use courier::config::TelegramConfig;

#[test]
fn split_message_short_text_returns_single_chunk() {
    let text = "Hello, world!";
    let chunks = split_message(text, 4096);
    assert_eq!(chunks, vec!["Hello, world!"]);
}

#[test]
fn split_message_exact_limit_returns_single_chunk() {
    let text = "a".repeat(4096);
    let chunks = split_message(&text, 4096);
    assert_eq!(chunks.len(), 1);
    assert_eq!(chunks[0].len(), 4096);
}

#[test]
fn split_message_exceeds_limit_splits_at_line_boundary() {
    let lines: Vec<String> = (0..100)
        .map(|i| format!("Line {}: some content here", i))
        .collect();
    let text = lines.join("\n");
    let chunks = split_message(&text, 200);

    // Every chunk should be within the limit
    for chunk in &chunks {
        assert!(chunk.len() <= 200, "Chunk too long: {} chars", chunk.len());
    }

    // Rejoined content should equal original
    let rejoined = chunks.join("\n");
    assert_eq!(rejoined, text);
}

#[test]
fn split_message_empty_text_returns_single_empty_chunk() {
    let chunks = split_message("", 4096);
    // Empty string has one empty line, which produces one empty chunk
    assert_eq!(chunks, vec![""]);
}

#[test]
fn split_message_preserves_all_lines() {
    let text = "Line 1\nLine 2\nLine 3";
    let chunks = split_message(text, 4096);
    assert_eq!(chunks.len(), 1);
    assert_eq!(chunks[0], text);
}

#[test]
fn split_message_single_long_line_becomes_own_chunk() {
    // A single line longer than max_len — it must still appear in output
    let long_line = "x".repeat(5000);
    let text = format!("short\n{}\nshort2", long_line);
    let chunks = split_message(&text, 4096);
    assert!(chunks.len() >= 2);
    // The long line should exist in exactly one chunk
    assert!(chunks.iter().any(|c| c.contains(&long_line)));
}

#[test]
fn split_message_packs_lines_greedily() {
    let chunks = split_message("aaaa\nbbbb\ncccc", 9);
    assert_eq!(chunks, vec!["aaaa\nbbbb", "cccc"]);
}

#[test]
fn split_message_counts_bytes_not_chars() {
    // Each "é" is two bytes: four of them do not fit in seven bytes.
    let chunks = split_message("éé\néé", 7);
    assert_eq!(chunks, vec!["éé", "éé"]);
}

#[test]
fn split_message_drops_empty_line_at_chunk_start() {
    let chunks = split_message("abc\n\n\ndef", 4);
    assert_eq!(chunks, vec!["abc\n", "def"]);
}

#[test]
fn telegram_full_message_frames_title() {
    assert_eq!(TelegramChannel::full_message("Daily", "body"), "*Daily*\n\nbody");
}

#[test]
fn telegram_send_url_uses_bot_token() {
    let ch = TelegramChannel::new(TelegramConfig {
        enabled: true,
        bot_token: "123:abc".to_string(),
        chat_ids: vec![1],
        chat_mode: false,
    });
    assert_eq!(ch.send_url(), "https://api.telegram.org/bot123:abc/sendMessage");
}

#[test]
fn telegram_message_chunks_split_the_framed_message() {
    let content = "y".repeat(5000);
    let chunks = TelegramChannel::message_chunks("T", &content);
    assert_eq!(MAX_MESSAGE_LEN, 4096);
    assert_eq!(chunks.len(), 2);
    assert_eq!(chunks[0], "*T*\n");
    assert_eq!(chunks[1], content);
}

#[test]
fn split_message_long_chunks_are_whole_lines() {
    let long = "x".repeat(30);
    let text = format!("ab\n{}\ncd\nef", long);
    let chunks = split_message(&text, 10);
    assert_eq!(chunks, vec!["ab".to_string(), long.clone(), "cd\nef".to_string()]);
    for c in &chunks {
        assert!(c.len() <= 10 || text.lines().any(|l| l == c.as_str()));
    }
}

#[test]
fn split_message_closes_a_chunk_only_when_the_next_line_does_not_fit() {
    let text = "aaa\nbbb\ncccc\nd";
    let chunks = split_message(text, 8);
    assert_eq!(chunks, vec!["aaa\nbbb", "cccc\nd"]);
    for i in 0..chunks.len() - 1 {
        let next_first = chunks[i + 1].split('\n').next().unwrap();
        assert!(chunks[i].len() + 1 + next_first.len() > 8);
    }
}

#[test]
fn split_message_rejoined_keeps_every_non_empty_line() {
    let text = "alpha\n\nbeta\n\ngamma\ndelta";
    let chunks = split_message(text, 11);
    let rejoined = chunks.join("\n");
    let kept: Vec<&str> = rejoined.lines().filter(|l| !l.is_empty()).collect();
    let original: Vec<&str> = text.lines().filter(|l| !l.is_empty()).collect();
    assert_eq!(kept, original);
    let plain = "one\ntwo\nthree\nfour";
    assert_eq!(split_message(plain, 8).join("\n"), plain);
}
