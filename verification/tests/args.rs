use c_main::{Args, IntoIter};

fn drain<'a>(mut iter: IntoIter<'a>) -> Vec<&'a str> {
    let mut out = Vec::new();
    while let Some(arg) = iter.next() {
        out.push(arg);
    }
    out
}

#[test]
fn validated_arguments_come_back_in_order() {
    let table: [&[u8]; 4] = [b"prog\0", b"--name\0", b"v\xc3\xa4rde\0", b"\xe6\x97\xa5\xe6\x9c\xac\0"];
    let args = Args::new(4, &table).unwrap();
    assert_eq!(drain(args.into_iter()), vec!["prog", "--name", "v\u{e4}rde", "\u{65e5}\u{672c}"]);
}

#[test]
fn yielded_text_keeps_the_bytes_of_the_table() {
    let table: [&[u8]; 3] = [b"prog\0", b"v\xc3\xa4rde\0", b"\xf0\x9f\xa6\x80!\0"];
    let args = Args::new(3, &table).unwrap();
    let mut iter = args.into_iter();
    for raw in table {
        let arg = iter.next().unwrap();
        assert_eq!(arg.as_bytes(), &raw[..raw.len() - 1]);
    }
    assert_eq!(iter.next(), None);
}

#[test]
fn first_failure_index_is_the_lowest() {
    let table: [&[u8]; 7] = [
        b"prog\0",
        b"one\0",
        b"tw\xffo\0",
        b"three\0",
        b"four\0",
        b"fi\xc3\x28ve\0",
        b"six\0",
    ];
    let (index, error) = Args::new(7, &table).unwrap_err();
    assert_eq!(index, 2);
    assert_ne!(index, 5);
    assert_eq!(error.valid_up_to(), 2);
    assert_eq!(error.error_len(), Some(1));
}

#[test]
fn failure_carries_the_decoder_error_of_that_argument() {
    let table: [&[u8]; 3] = [b"prog\0", b"abc\xe6\x97\0", b"\xff\0"];
    let (index, error) = Args::new(3, &table).unwrap_err();
    assert_eq!(index, 1);
    assert_eq!(error, core::str::from_utf8(b"abc\xe6\x97").unwrap_err());
    assert_eq!(error.valid_up_to(), 3);
    assert_eq!(error.error_len(), None);
}

#[test]
fn invalid_program_name_is_index_zero() {
    let table: [&[u8]; 2] = [b"\xfe\0", b"fine\0"];
    let (index, _) = Args::new(2, &table).unwrap_err();
    assert_eq!(index, 0);
}

#[test]
fn invalid_last_argument_is_found() {
    let table: [&[u8]; 3] = [b"prog\0", b"fine\0", b"\xed\xa0\x80\0"];
    let (index, error) = Args::new(3, &table).unwrap_err();
    assert_eq!(index, 2);
    assert_eq!(error.valid_up_to(), 0);
}

#[test]
fn bytes_behind_a_terminator_are_not_checked() {
    let table: [&[u8]; 2] = [b"prog\0\xff\xff", b"ab\0cd\0"];
    let args = Args::new(2, &table).unwrap();
    assert_eq!(drain(args.into_iter()), vec!["prog", "ab"]);
}

#[test]
fn empty_arguments_are_valid() {
    let table: [&[u8]; 3] = [b"prog\0", b"\0", b"x\0"];
    let args = Args::new(3, &table).unwrap();
    assert_eq!(drain(args.into_iter()), vec!["prog", "", "x"]);
}

#[test]
fn size_hint_is_exact_after_each_element() {
    let table: [&[u8]; 4] = [b"prog\0", b"a\0", b"b\0", b"c\0"];
    let args = Args::new(4, &table).unwrap();
    let mut iter = args.into_iter();
    for taken in 0..4usize {
        assert_eq!(iter.size_hint(), (4 - taken, Some(4 - taken)));
        assert!(iter.next().is_some());
    }
    assert_eq!(iter.size_hint(), (0, Some(0)));
    assert_eq!(iter.next(), None);
    assert_eq!(iter.size_hint(), (0, Some(0)));
}

#[test]
fn count_is_what_is_left() {
    let table: [&[u8]; 4] = [b"prog\0", b"a\0", b"b\0", b"c\0"];
    let args = Args::new(4, &table).unwrap();
    for taken in 0..=4usize {
        let mut iter = args.into_iter();
        for _ in 0..taken {
            iter.next();
        }
        assert_eq!(iter.count(), 4 - taken);
    }
}

#[test]
fn count_does_not_decode() {
    let table: [&[u8]; 3] = [b"prog\0", b"\xff\0", b"\xfe\0"];
    let args = Args::new_unchecked(3, &table);
    assert_eq!(args.into_iter().size_hint(), (3, Some(3)));
    assert_eq!(args.into_iter().count(), 3);
}

#[test]
fn exhausted_iterator_stays_exhausted() {
    let table: [&[u8]; 2] = [b"prog\0", b"a\0"];
    let args = Args::new(2, &table).unwrap();
    let mut iter = args.into_iter();
    assert_eq!(iter.next(), Some("prog"));
    assert_eq!(iter.next(), Some("a"));
    assert_eq!(iter.next(), None);
    assert_eq!(iter.next(), None);
    assert_eq!(iter.count(), 0);
}

#[test]
fn two_iterators_yield_the_same_sequence() {
    let table: [&[u8]; 3] = [b"prog\0", b"--flag\0", b"v\xc3\xa4rde\0"];
    let args = Args::new(3, &table).unwrap();
    let first = drain(args.into_iter());
    let second = drain(args.into_iter());
    assert_eq!(first, second);
    assert_eq!(first, vec!["prog", "--flag", "v\u{e4}rde"]);
}

#[test]
fn interleaved_iterators_do_not_disturb_each_other() {
    let table: [&[u8]; 3] = [b"prog\0", b"a\0", b"b\0"];
    let args = Args::new(3, &table).unwrap();
    let mut one = args.into_iter();
    assert_eq!(one.next(), Some("prog"));
    let mut two = args.into_iter();
    assert_eq!(two.next(), Some("prog"));
    assert_eq!(one.next(), Some("a"));
    assert_eq!(one.next(), Some("b"));
    assert_eq!(two.next(), Some("a"));
    assert_eq!(one.next(), None);
    assert_eq!(two.next(), Some("b"));
    assert_eq!(two.next(), None);
}

#[test]
fn single_program_name() {
    let table: [&[u8]; 1] = [b"prog\0"];
    let args = Args::new(1, &table).unwrap();
    assert_eq!(drain(args.into_iter()), vec!["prog"]);

    let mut rest = args.into_iter();
    assert_eq!(rest.size_hint(), (1, Some(1)));
    rest.next();
    assert_eq!(rest.size_hint(), (0, Some(0)));
    assert!(drain(rest).is_empty());
}

#[test]
fn unchecked_path_agrees_with_checked_path() {
    let table: [&[u8]; 4] = [b"prog\0", b"\0", b"v\xc3\xa4rde\0", b"\xf0\x9f\xa6\x80\0"];
    let checked = Args::new(4, &table).unwrap();
    let unchecked = Args::new_unchecked(4, &table);
    let expected = drain(checked.into_iter());
    assert_eq!(expected, vec!["prog", "", "v\u{e4}rde", "\u{1f980}"]);
    for index in 0..4 {
        assert_eq!(unchecked.get_str_by_index(index), expected[index]);
        assert_eq!(checked.get_str_by_index(index), expected[index]);
    }
    assert_eq!(drain(unchecked.into_iter()), expected);
}

#[test]
fn unchecked_view_decodes_its_valid_arguments() {
    let table: [&[u8]; 3] = [b"prog\0", b"\xff\0", b"ok\0"];
    let args = Args::new_unchecked(3, &table);
    assert_eq!(args.get_str_by_index(0), "prog");
    assert_eq!(args.get_str_by_index(2), "ok");
    let mut iter = args.into_iter();
    assert_eq!(iter.next(), Some("prog"));
    assert_eq!(iter.size_hint(), (2, Some(2)));
}

#[test]
fn as_slice_is_the_table() {
    let table: [&[u8]; 3] = [b"prog\0", b"a\0rest", b"\xff\0"];
    let args = Args::new_unchecked(3, &table);
    let raw = args.as_slice();
    assert_eq!(raw.len(), 3);
    assert_eq!(raw[0], b"prog\0");
    assert_eq!(raw[1], b"a\0rest");
    assert_eq!(raw[2], b"\xff\0");
    assert_eq!(raw.as_ptr(), table.as_ptr());
}

#[test]
fn copies_of_a_view_see_the_same_arguments() {
    let table: [&[u8]; 2] = [b"prog\0", b"arg\0"];
    let args = Args::new(2, &table).unwrap();
    let copy = args;
    let clone = args.clone();
    assert_eq!(drain(copy.into_iter()), drain(args.into_iter()));
    assert_eq!(drain(clone.into_iter()), vec!["prog", "arg"]);
}

#[test]
fn strings_outlive_the_view() {
    let table: [&[u8]; 2] = [b"prog\0", b"arg\0"];
    let second = {
        let args = Args::new(2, &table).unwrap();
        args.get_str_by_index(1)
    };
    assert_eq!(second, "arg");
}

fn shared_between_threads<T: Send + Sync>(_: &T) {}

#[test]
fn view_and_cursor_can_be_shared_between_threads() {
    let table: [&[u8]; 2] = [b"prog\0", b"arg\0"];
    let args = Args::new(2, &table).unwrap();
    shared_between_threads(&args);
    shared_between_threads(&args.into_iter());
}
