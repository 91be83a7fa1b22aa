use papergrid::{replace_tab, string_width, AlignmentHorizontal, AlignmentVertical};

fn tab_replaced(s: &str, n: usize) -> String {
    let mut owned = s.to_owned();
    replace_tab(&mut owned, n);
    owned
}

#[test]
fn replace_tab_test() {
    assert_eq!(tab_replaced("123\t\tabc\t", 3), "123      abc   ");

    assert_eq!(tab_replaced("\t", 0), "");
    assert_eq!(tab_replaced("\t", 3), "   ");
    assert_eq!(tab_replaced("123\tabc", 3), "123   abc");
    assert_eq!(tab_replaced("123\tabc\tzxc", 0), "123abczxc");

    assert_eq!(tab_replaced("\\t", 0), "\\t");
    assert_eq!(tab_replaced("\\t", 4), "\\t");
    assert_eq!(tab_replaced("123\\tabc", 0), "123\\tabc");
    assert_eq!(tab_replaced("123\\tabc", 4), "123\\tabc");
}

#[test]
fn string_width_emojie_test() {
    assert_eq!(string_width("🎩"), 2);
    assert_eq!(string_width("Rust 💕"), 7);
    assert_eq!(string_width("Go 👍\nC 😎"), 5);
}

#[test]
fn horizontal_aligment_test() {
    assert_eq!(AlignmentHorizontal::Right.align("AAA", 4), " AAA");
    assert_eq!(AlignmentHorizontal::Left.align("AAA", 4), "AAA ");
    assert_eq!(AlignmentHorizontal::Center.align("AAA", 4), "AAA ");
    assert_eq!(AlignmentHorizontal::Center.align("🎩", 4), " 🎩 ");
    assert_eq!(AlignmentHorizontal::Center.align("🎩", 3), "🎩 ");
}

#[test]
fn vertical_aligment_test() {
    assert_eq!(AlignmentVertical::Bottom.top_ident(1, 1), 0);
    assert_eq!(AlignmentVertical::Top.top_ident(1, 1), 0);
    assert_eq!(AlignmentVertical::Center.top_ident(1, 1), 0);
    assert_eq!(AlignmentVertical::Bottom.top_ident(3, 1), 2);
    assert_eq!(AlignmentVertical::Top.top_ident(3, 1), 0);
    assert_eq!(AlignmentVertical::Center.top_ident(3, 1), 1);
    assert_eq!(AlignmentVertical::Center.top_ident(4, 1), 1);
}
