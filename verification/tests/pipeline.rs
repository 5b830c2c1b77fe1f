use strings::chars_to_lower;
use strings::chars_to_upper;
use strings::compare_first_letter;
use strings::concat_strings;
use strings::first_char_to_upper_then_lower;
use strings::iter_words;
use strings::iter_words_ext;
use strings::n_chars;
use strings::replace_chars;
use strings::rm_specials;
use strings::rm_specials_char;
use strings::sanitize;
use strings::sanitize_name_iter;
use strings::sanitize_spaces;
use strings::sanitize_spaces_iter;
use strings::space_join;
use strings::SpaceJoiner;

#[test]
fn spaces_into_string() {
    let expect = ["hola", "como", "estas"];
    let inp = "\n\n\t\n   hola\t\t\n \n\t\n como\n\n\t\t\n\n\t \n \testas\n\n\t";

    let expect = expect.into_iter().collect::<Vec<_>>().join(" ");
    let got = concat_strings(&space_join(iter_words(inp)));

    assert_eq!(expect, got);
}

#[test]
fn spaces() {
    let expect = ["hola", "como", "estas"];
    let inp = "\n\n\t\n   hola\t\t\n \n\t\n como\n\n\t\t\n\n\t \n \testas\n\n\t";

    let got = iter_words(inp);
    assert!(
        expect.iter().map(|s| s.to_string()).collect::<Vec<_>>() == got,
        "{:?} vs {:?}",
        expect.iter().collect::<Vec<_>>(),
        got
    );
}

#[test]
fn take_chars_2() {
    let str = "Hola me llamo daniel";
    let expected = &['h', 'o', 'm', 'e', 'l', 'l', 'd', 'a'];

    let res = n_chars(&iter_words(str), 2);

    assert_eq!(res.as_slice(), expected.as_slice());
}

#[test]
fn take_chars_spaces_2() {
    let str = "Hola me llamo Daniel";
    let expected = &['h', 'o', ' ', 'm', 'e', ' ', 'l', 'l', ' ', 'd', 'a'];

    let res = n_chars(&space_join(iter_words(str)), 2);

    assert_eq!(res.as_slice(), expected.as_slice());
}

#[test]
fn normalize_char() {
    let str = "Eyyyy cómo andamos mi Pepe perro ajá";
    let expected = [
        'E', 'y', 'y', 'y', 'y', ' ', 'c', 'o', 'm', 'o', ' ', 'a', 'n', 'd', 'a', 'm', 'o', 's',
        ' ', 'm', 'i', ' ', 'P', 'e', 'p', 'e', ' ', 'p', 'e', 'r', 'r', 'o', ' ', 'a', 'j', 'a',
    ];

    let res = rm_specials(&space_join(iter_words(str)));
    assert_eq!(res.as_slice(), expected.as_slice());
}

#[test]
fn compare() {
    let name1 = "Bob A. Wilson García";
    let name2 = "Bob Antonio W. G.";

    assert!(compare_first_letter(name1, name2));
}

#[test]
fn first_upper_then_lower() {
    let name = "MIKE THOMPSON garcia perez";
    assert_eq!(
        "Mike Thompson Garcia Perez",
        space_join(iter_words(name))
            .into_iter()
            .flat_map(|w| first_char_to_upper_then_lower(w.chars().collect()))
            .collect::<String>()
    );

    let name = "Jennifer Maria Lopez de la Torre";
    assert_eq!(
        "Jennifer Maria Lopez De La Torre",
        space_join(iter_words(name))
            .into_iter()
            .flat_map(|w| first_char_to_upper_then_lower(w.chars().collect()))
            .collect::<String>()
    );
}

#[test]
fn to_lower() {
    let name = "CARLOS FERNANDO MARTÍNEZ GONZÁLEZ";
    assert_eq!(
        "carlos fernando martínez gonzález",
        space_join(iter_words(name))
            .into_iter()
            .flat_map(|w| chars_to_lower(w.chars().collect()))
            .collect::<String>()
    );
}

#[test]
fn first_upper_then_lower_accents() {
    let name = "CARLOS \t\t\n \rFERNANDO   \n\n\rMARTÍNEZ             GONZÁLEZ\n\n\r";
    assert_eq!(
        "Carlos Fernando Martínez González",
        space_join(iter_words(name))
            .into_iter()
            .flat_map(|w| first_char_to_upper_then_lower(w.chars().collect()))
            .collect::<String>()
    );
}

#[test]
fn sanitize_spaces_example() {
    let text = "\t\t\n Hello, \n\n\t \r\n world!\n\t\n";
    assert_eq!(sanitize_spaces(text), "Hello, world!".to_string());
}

#[test]
fn sanitize_spaces_iter_example() {
    let text = "\t\t\n Hello, \n\n\t \r\n world!\n\t\n";
    assert_eq!(
        sanitize_spaces_iter(text),
        vec!["Hello,".to_string(), " ".to_string(), "world!".to_string()]
    );
}

#[test]
fn sanitize_spaces_idempotent_example() {
    let text = "  uno \t dos\n\ntres ";
    let once = sanitize_spaces(text);
    let twice = sanitize_spaces(&once);
    assert_eq!(once, twice);
    assert_eq!(once, "uno dos tres");
}

#[test]
fn sanitize_spaces_round_trip_canonical() {
    let text = "Hello, world!";
    assert_eq!(sanitize_spaces(text), text);
}

#[test]
fn sanitize_spaces_degenerate() {
    assert_eq!(sanitize_spaces(" \t\r\n \n"), "");
    assert_eq!(sanitize_spaces(""), "");
    assert!(iter_words(" \t\r\n \n").is_empty());
}

#[test]
fn words_keep_content_in_order() {
    let text = " ab\tcd \r\n e";
    let words = iter_words(text);
    assert!(words.iter().all(|w| !w.is_empty()));
    let rejoined: String = words.concat();
    let kept: String = text.chars().filter(|c| !c.is_whitespace()).collect();
    assert_eq!(rejoined, kept);
    assert_eq!(words, vec!["ab".to_string(), "cd".to_string(), "e".to_string()]);
}

#[test]
fn iter_words_single_word() {
    assert_eq!(iter_words("palabra"), vec!["palabra".to_string()]);
}

#[test]
fn iter_words_ext_extra_separators() {
    let got = iter_words_ext("uno-dos tres_cuatro", &['-', '_']);
    assert_eq!(
        got,
        vec![
            "uno".to_string(),
            "dos".to_string(),
            "tres".to_string(),
            "cuatro".to_string()
        ]
    );
}

#[test]
fn sanitize_full_pipeline() {
    let res: String = sanitize("  Eyyyy CÓMO  andamos ", &[]).into_iter().collect();
    assert_eq!(res, "eyyyy como andamos");
}

#[test]
fn sanitize_name_iter_example() {
    let res: String = sanitize_name_iter("  jennifer MARIA   lopez ").into_iter().collect();
    assert_eq!(res, "Jennifer Maria Lopez");
}

#[test]
fn rm_specials_char_strips_accents() {
    let res = rm_specials_char(vec!['á', 'é', 'ñ', 'x']);
    assert_eq!(res, vec!['a', 'e', 'n', 'x']);
}

#[test]
fn chars_to_upper_expands() {
    // the German sharp s uppercases to two characters
    let res = chars_to_upper(vec!['ß', 'a']);
    assert_eq!(res, vec!['S', 'S', 'A']);
}

#[test]
fn chars_to_lower_accented() {
    let res = chars_to_lower(vec!['Á', 'B']);
    assert_eq!(res, vec!['á', 'b']);
}

#[test]
fn replace_chars_dashes() {
    let res = replace_chars(vec!['a', '~', 'b', '~'], &['~', '#'], '-');
    assert_eq!(res, vec!['a', '-', 'b', '-']);
}

#[test]
fn compare_first_letter_mismatch() {
    assert!(!compare_first_letter("Ana Maria", "Ana"));
    assert!(!compare_first_letter("Ana Maria", "Ana Paula"));
    assert!(compare_first_letter("", "  \t"));
}

#[test]
fn n_chars_edges() {
    assert_eq!(n_chars(&iter_words("abc de"), 0), Vec::<char>::new());
    assert_eq!(n_chars(&iter_words("ab"), 5), vec!['a', 'b']);
}

#[test]
fn space_joiner_pull() {
    let mut joiner = SpaceJoiner::new(vec!["uno".to_string(), "dos".to_string()]);
    assert_eq!(joiner.next(), Some("uno".to_string()));
    assert_eq!(joiner.next(), Some(" ".to_string()));
    assert_eq!(joiner.next(), Some("dos".to_string()));
    assert_eq!(joiner.next(), None);
    assert_eq!(joiner.next(), None);
}

#[test]
fn space_joiner_single_word() {
    let mut joiner = SpaceJoiner::new(vec!["solo".to_string()]);
    assert_eq!(joiner.next(), Some("solo".to_string()));
    assert_eq!(joiner.next(), None);
}
