#[test]
fn path_not_exists() {
}

#[test]
fn test_char() {
    let chars: Vec<char> = "予定調和".chars().collect();
    let ass = vec!['予', '定', '調', '和'];
    assert_eq!(ass, chars);
}
