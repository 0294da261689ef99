use bijjou::config::Activate;
use bijjou::stream::{activates, join_lines};
use bijjou::config::BatchSize;
use bijjou::stream::{read_batch, resolve_batch_sizes};

#[test]
fn read_batch_returns_n_lines() {
    let input = b"a\nb\nc\nd\n";
    let batch = read_batch(&input[..], 3);
    assert_eq!(batch.len(), 3);
    assert_eq!(batch[0], b"a\n");
    assert_eq!(batch[1], b"b\n");
    assert_eq!(batch[2], b"c\n");
}

#[test]
fn read_batch_stops_at_eof() {
    let input = b"a\nb\n";
    let batch = read_batch(&input[..], 10);
    assert_eq!(batch.len(), 2);
}

#[test]
fn read_batch_handles_trailing_no_newline() {
    let input = b"a\nb";
    let batch = read_batch(&input[..], 10);
    assert_eq!(batch.len(), 2);
    assert_eq!(batch[0], b"a\n");
    assert_eq!(batch[1], b"b");
}

#[test]
fn read_batch_empty_input_returns_empty() {
    let input: &[u8] = b"";
    let batch = read_batch(input, 5);
    assert!(batch.is_empty());
}

// ---------------------------------------------------------------------------

#[test]
fn read_batch_of_zero_is_empty() {
    assert!(read_batch(b"a\nb\n", 0).is_empty());
}

#[test]
fn fixed_batch_size_is_used_for_both_batches() {
    assert_eq!(resolve_batch_sizes(&BatchSize::Fixed(32), Some(50)), (32, 32));
    assert_eq!(resolve_batch_sizes(&BatchSize::Fixed(32), None), (32, 32));
}

#[test]
fn half_pager_fills_the_screen_then_half_of_it() {
    assert_eq!(resolve_batch_sizes(&BatchSize::HalfPager, Some(41)), (40, 20));
    assert_eq!(resolve_batch_sizes(&BatchSize::HalfPager, None), (23, 11));
    assert_eq!(resolve_batch_sizes(&BatchSize::HalfPager, Some(1)), (1, 1));
    assert_eq!(resolve_batch_sizes(&BatchSize::HalfPager, Some(0)), (1, 1));
}

#[test]
fn fixed_zero_takes_one_line() {
    assert_eq!(resolve_batch_sizes(&BatchSize::Fixed(0), None), (1, 1));
}

#[test]
fn activation_follows_the_mode_and_the_template_field() {
    assert!(!activates(Activate::Never, b"bijjou_template_name"));
    assert!(activates(Activate::Always, b"plain"));
    assert!(activates(Activate::Auto, b"x\x00bijjou_template_name\x00y"));
    assert!(!activates(Activate::Auto, b"plain text"));
}

#[test]
fn joined_lines_give_back_the_input() {
    let input = b"a\nbc\n\nd";
    let lines = read_batch(input, 10);
    assert_eq!(join_lines(&lines), input.to_vec());
}
