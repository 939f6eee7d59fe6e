use greedy_assembler::text::{chars_of, chars_of_all, string_of};

#[test]
fn the_characters_of_a_string() {
    assert_eq!(chars_of("ACGT"), vec!['A', 'C', 'G', 'T']);
    assert_eq!(chars_of(""), Vec::<char>::new());
    assert_eq!(chars_of("aé"), vec!['a', 'é']);
}

#[test]
fn the_string_of_some_characters() {
    let chars = vec!['A', 'C', 'G', 'T'];
    assert_eq!(string_of(&chars, 0, 4), "ACGT");
    assert_eq!(string_of(&chars, 1, 3), "CG");
    assert_eq!(string_of(&chars, 2, 2), "");
    assert_eq!(string_of(&['é', 'ö'], 1, 2), "ö");
}

#[test]
fn the_characters_of_every_string() {
    let strings = vec!["AC".to_string(), "".to_string(), "G".to_string()];
    assert_eq!(chars_of_all(&strings), vec![vec!['A', 'C'], vec![], vec!['G']]);
}
