use rust_algo::searching::boyer_moore_horspool::boyer_moore_horspool;

#[test]
fn boyer_moore_horspool_good() {
    assert_eq!(boyer_moore_horspool("dont", String::from("I dont know")), 2);
    assert_eq!(boyer_moore_horspool("I", String::from("I dont know")), 0);
    assert_eq!(boyer_moore_horspool("know", String::from("I dont know")), 7);
    assert_eq!(boyer_moore_horspool("fish", String::from("I dont know")), -1);
    assert_eq!(boyer_moore_horspool("i", String::from("I dont know")), -1);
}

#[test]
fn boyer_moore_horspool_notgood() {
}

#[test]
fn boyer_moore_horspool_edges() {
    // needle longer than the haystack can occur nowhere
    assert_eq!(boyer_moore_horspool("long needle", String::from("short")), -1);
    // needle equal to the haystack occurs at the start
    assert_eq!(boyer_moore_horspool("whole", String::from("whole")), 0);
    // needle at the very end
    assert_eq!(boyer_moore_horspool("ow", String::from("I dont know")), 9);
}

#[test]
fn boyer_moore_horspool_first_of_several() {
    assert_eq!(boyer_moore_horspool("ab", String::from("xababy")), 1);
    assert_eq!(boyer_moore_horspool("o", String::from("I dont know")), 3);
    assert_eq!(boyer_moore_horspool("aa", String::from("aaaa")), 0);
}

#[test]
fn boyer_moore_horspool_multibyte() {
    // byte positions: the two-byte letter starts at byte 2
    assert_eq!(boyer_moore_horspool("ç", String::from("maçon")), 2);
    assert_eq!(boyer_moore_horspool("çon", String::from("maçon")), 2);
}
