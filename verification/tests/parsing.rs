use flight_radar::parsing::{
    is_simple_multiline_string, parse_geo_shp, parse_simple_multiline_string, GeoShpIter,
};

fn run_iter<'a>(input: &'a String) -> Vec<&'a str> {
    let mut iter = GeoShpIter::new(input);
    let mut fields = Vec::new();
    while let Some(field) = iter.next() {
        fields.push(field);
    }
    fields
}

#[test]
fn test_standard_iter() {
    assert_eq!(run_iter(&"abc,def,ghi,jkl".to_string()), vec!["abc", "def", "ghi", "jkl"]);
    assert_eq!(run_iter(&"abc".to_string()), vec!["abc"]);
    assert_eq!(run_iter(&"".to_string()), Vec::<&str>::new());
}

#[test]
fn test_iter_whitespace_handling() {
    assert_eq!(
        run_iter(&"   abc   , def ,ghi    , jkl   ".to_string()),
        vec!["abc", "def", "ghi", "jkl"]
    );
    assert_eq!(run_iter(&"     ".to_string()), Vec::<&str>::new());
}

#[test]
fn test_iter_multi_block_handling() {
    assert_eq!(
        run_iter(&"abc,MULTI ((( def,ghi ))),jkl".to_string()),
        vec!["abc", "MULTI ((( def,ghi )))", "jkl"]
    );
    assert_eq!(
        run_iter(&"abc, (( def, ( ghi, jkl ) )) ,jkl".to_string()),
        vec!["abc", "(( def, ( ghi, jkl ) ))", "jkl"]
    );
}

#[test]
fn test_invalid_unclosed_multi_block_handling() {
    assert_eq!(
        run_iter(&"abc,MULTI ((( def,ghi )),jkl".to_string()),
        vec!["abc", "MULTI ((( def,ghi )),jkl"]
    );
}

#[test]
fn test_multi_line_parsing() {
    assert_eq!(
        parse_simple_multiline_string(&"MULTILINESTRING ((12.0 34.0, 56.0 78.0))".to_string()),
        vec![vec!["12.0", "34.0"], vec!["56.0", "78.0"]]
    );
    assert_eq!(
        parse_simple_multiline_string(&"MULTILINESTRING (())".to_string()),
        vec![Vec::<&str>::new()]
    );
}

#[test]
fn empty_fields_are_kept_but_a_trailing_one_is_not() {
    assert_eq!(run_iter(&"a,,b".to_string()), vec!["a", "", "b"]);
    assert_eq!(run_iter(&",".to_string()), vec![""]);
    assert_eq!(run_iter(&"a,".to_string()), vec!["a"]);
}

#[test]
fn unmatched_closing_bracket_is_undone_by_an_opening_one() {
    assert_eq!(run_iter(&"a),b(,c".to_string()), vec!["a),b(", "c"]);
}

#[test]
fn iterator_keeps_returning_none_after_the_end() {
    let input = "x , y".to_string();
    let mut iter = parse_geo_shp(&input);
    assert_eq!(iter.next(), Some("x"));
    assert_eq!(iter.next(), Some("y"));
    assert_eq!(iter.next(), None);
    assert_eq!(iter.next(), None);
}

#[test]
fn fields_of_a_coastline_record() {
    let line =
        "1,MULTILINESTRING ((-163.7 -78.5, -163.1 -78.2)),1,Coastline,1.0".to_string();
    let fields = run_iter(&line);
    assert_eq!(
        fields,
        vec!["1", "MULTILINESTRING ((-163.7 -78.5, -163.1 -78.2))", "1", "Coastline", "1.0"]
    );
    assert!(is_simple_multiline_string(fields[1]));
    assert_eq!(
        parse_simple_multiline_string(fields[1]),
        vec![vec!["-163.7", "-78.5"], vec!["-163.1", "-78.2"]]
    );
}

#[test]
fn multiline_prefix_is_required_in_full() {
    assert!(is_simple_multiline_string("MULTILINESTRING (("));
    assert!(!is_simple_multiline_string("MULTILINESTRING ("));
    assert!(!is_simple_multiline_string("LINESTRING ((1 2))"));
    assert!(!is_simple_multiline_string(""));
}

#[test]
fn multiline_pieces_split_on_any_whitespace() {
    assert_eq!(
        parse_simple_multiline_string("MULTILINESTRING ((1\t2 ,\n3   4,,5))"),
        vec![vec!["1", "2"], vec!["3", "4"], vec![], vec!["5"]]
    );
}

#[test]
fn non_ascii_fields_are_cut_at_character_positions() {
    assert_eq!(run_iter(&"\u{e9}t\u{e9} , na\u{ef}ve\u{a0}".to_string()), vec!["\u{e9}t\u{e9}", "na\u{ef}ve"]);
}
