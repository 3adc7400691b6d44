use medslice::text::{after_last, copy_tail_after};

#[test]
fn the_tail_follows_the_last_mark() {
    assert_eq!(copy_tail_after("/data/series/IM0001", '/'), "IM0001");
    assert_eq!(copy_tail_after("IM0001", '/'), "IM0001");
    assert_eq!(copy_tail_after("series/", '/'), "");
    assert_eq!(copy_tail_after("", '/'), "");
    assert_eq!(copy_tail_after("/", '/'), "");
    assert_eq!(copy_tail_after("a//b", '/'), "b");
    assert_eq!(copy_tail_after("größe/maß", '/'), "maß");
}

#[test]
fn the_tail_is_the_last_part_of_a_split() {
    for text in ["/a/b/c", "abc", "a/", "", "//", "a/b"] {
        assert_eq!(copy_tail_after(text, '/'), text.split("/").last().unwrap());
    }
}

#[test]
fn the_place_after_the_last_mark() {
    assert_eq!(after_last("a.b.c", '.'), 4);
    assert_eq!(after_last("abc", '.'), 0);
    assert_eq!(after_last("abc.", '.'), 4);
    assert_eq!(after_last(".abc", '.'), 1);
    assert_eq!(after_last("è.b", '.'), 2);
}
