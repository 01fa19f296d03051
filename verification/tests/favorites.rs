use disactivity::favorites::{
    add_favorite, favorites_from, get_favorites, read_favorites, remove_favorite, toggle_favorite,
    write_favorites, Favorites,
};

fn sorted(content: Option<&str>) -> Vec<String> {
    let mut list = get_favorites(content);
    list.sort();
    list
}

#[test]
fn favorites_are_a_set() {
    let mut favorites = Favorites::new();
    favorites.insert("a".to_string());
    favorites.insert("b".to_string());
    favorites.insert("a".to_string());
    assert!(favorites.contains("a"));
    favorites.remove("c");
    favorites.remove("a");
    assert!(!favorites.contains("a"));
    assert_eq!(favorites.into_vec(), vec!["b"]);
}

#[test]
fn what_cannot_be_read_holds_no_favorites() {
    assert!(sorted(None).is_empty());
    for content in ["", "nope", "{}", "[1]", "[\"a\"", "\"a\"", "null"] {
        assert!(sorted(Some(content)).is_empty(), "{}", content);
    }
    assert!(favorites_from(None).into_vec().is_empty());
}

#[test]
fn a_favorite_written_twice_counts_once() {
    assert_eq!(sorted(Some(" [\"b\", \"a\", \"b\"] ")), vec!["a", "b"]);
}

#[test]
fn what_is_written_is_read_again() {
    let ids = ["plain", "quo\"te", "back\\slash", "line\nbreak", "\u{1}", "ünï", "", "\u{1f600}"];
    let mut favorites = Favorites::new();
    for id in ids {
        favorites.insert(id.to_string());
    }
    let text = write_favorites(&favorites).unwrap();
    let again = read_favorites(Some(&text));
    for id in ids {
        assert!(again.contains(id));
    }
    assert_eq!(again.into_vec().len(), ids.len());
}

#[test]
fn favorites_are_written_as_a_json_list() {
    assert_eq!(write_favorites(&Favorites::new()), Ok("[]".to_string()));
    assert_eq!(add_favorite(None, "a\"".to_string()), Ok("[\"a\\\"\"]".to_string()));
}

#[test]
fn adding_and_removing() {
    let one = add_favorite(None, "a".to_string()).unwrap();
    assert_eq!(sorted(Some(&one)), vec!["a"]);
    let same = add_favorite(Some(&one), "a".to_string()).unwrap();
    assert_eq!(sorted(Some(&same)), vec!["a"]);
    let two = add_favorite(Some(&same), "b".to_string()).unwrap();
    assert_eq!(sorted(Some(&two)), vec!["a", "b"]);
    let rest = remove_favorite(Some(&two), "b").unwrap();
    assert_eq!(sorted(Some(&rest)), vec!["a"]);
    let still = remove_favorite(Some(&rest), "b").unwrap();
    assert_eq!(sorted(Some(&still)), vec!["a"]);
}

#[test]
fn toggling() {
    let (on, is_favorite) = toggle_favorite(Some("[\"x\"]"), "a".to_string()).unwrap();
    assert!(is_favorite);
    assert_eq!(sorted(Some(&on)), vec!["a", "x"]);
    let (off, is_favorite) = toggle_favorite(Some(&on), "a".to_string()).unwrap();
    assert!(!is_favorite);
    assert_eq!(sorted(Some(&off)), vec!["x"]);
}
