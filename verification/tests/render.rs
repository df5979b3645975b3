//! Tests of the rendering helpers: tree rendering, indentation, and the
//! text normalizations.

use spoonfed_pekzep::normalizer::{
    capitalize_first_char, convert_into_multiple_tables,
    convert_line_breaks_and_tabs_into_single_table, convert_line_breaks_and_tabs_into_trs_and_tds,
    normalize_a_b_dialogue, normalize_chinese_punctuation,
};
use spoonfed_pekzep::recurse::{a, binary, foo3, indent, trinary, Subtree, Tree};

#[test]
fn test_foo() {
    let foo2 = {
        let tree = Tree::MaybeLabelledSubTree {
            label: Some('酒'),
            subtree: Subtree::Binary(
                Box::new(Tree::MaybeLabelledSubTree {
                    label: Some('奮'),
                    subtree: Subtree::Binary(
                        Box::new(Tree::Leaf { label: '心' }),
                        Box::new(Tree::Leaf { label: '火' }),
                    ),
                }),
                Box::new(Tree::Leaf { label: '水' }),
            ),
        };

        indent(4, &foo3(tree))
    };
    assert_eq!(
        foo2,
        String::from(
            r#"                <a href="./酒.html" style="text-decoration: none;">
                    <div class="dismantling-bar">
                        <span style="font-family: LinzklarRounded;">酒</span><span lang="ja">【酒】</span>
                    </div>
                </a>
                <div class="dismantling-frame">
                    <div style="flex: 50%">
                        <a href="./奮.html" style="text-decoration: none;">
                            <div class="dismantling-bar">
                                <span style="font-family: LinzklarRounded;">奮</span><span lang="ja">【奮】</span>
                            </div>
                        </a>
                        <div class="dismantling-frame">
                            <div style="flex: 50%">
                                <a href="./心.html" style="text-decoration: none;">
                                    <div class="dismantling-bar">
                                        <span style="font-family: LinzklarRounded;">心</span><span lang="ja">【心】</span>
                                    </div>
                                </a>
                            </div>
                            <div style="flex: 50%">
                                <a href="./火.html" style="text-decoration: none;">
                                    <div class="dismantling-bar">
                                        <span style="font-family: LinzklarRounded;">火</span><span lang="ja">【火】</span>
                                    </div>
                                </a>
                            </div>
                        </div>
                    </div>
                    <div style="flex: 50%">
                        <a href="./水.html" style="text-decoration: none;">
                            <div class="dismantling-bar">
                                <span style="font-family: LinzklarRounded;">水</span><span lang="ja">【水】</span>
                            </div>
                        </a>
                    </div>
                </div>"#,
        )
    );
}
#[test]
fn test_indent() {
    assert_eq!(indent(1, "x\ny"), "    x\n    y");
    assert_eq!(indent(0, "x"), "x");
    assert_eq!(indent(2, ""), "");
}

#[test]
fn test_trinary_panes() {
    let t = trinary("a", "b", "c");
    assert!(t.contains("flex: 33.3333333%"));
    assert!(t.contains("        a"));
}

#[test]
fn test_binary_panes() {
    let b = binary("p", "q");
    assert_eq!(
        b,
        "<div class=\"dismantling-frame\">\n    <div style=\"flex: 50%\">\n        p\n    </div>\n    <div style=\"flex: 50%\">\n        q\n    </div>\n</div>"
    );
}

#[test]
fn test_a_operator_mark() {
    let s = a('\u{1F4A5}');
    assert_eq!(
        s,
        "\n    <div class=\"dismantling-bar\">\n        <span lang=\"ja\">\u{1F4A5}</span>\n    </div>\n"
    );
}

#[test]
fn test_capitalize_first_char() {
    assert_eq!(
        capitalize_first_char("\u{101}, w\u{1D2} r\u{E8}nshi zh\u{E8}ge n\u{E1}nr\u{E9}n!"),
        "\u{100}, w\u{1D2} r\u{E8}nshi zh\u{E8}ge n\u{E1}nr\u{E9}n!"
    );
    assert_eq!(capitalize_first_char(""), "");
    assert_eq!(capitalize_first_char("abc"), "Abc");
}

#[test]
fn test_tables() {
    assert_eq!(
        convert_line_breaks_and_tabs_into_trs_and_tds("a\tb\nc"),
        "\t<tr><td>a</td><td>b</td></tr>\n\t<tr><td>c</td></tr>\n"
    );
    assert_eq!(
        convert_line_breaks_and_tabs_into_single_table("a"),
        "<table border=\"1\" cellpadding=\"5\" cellspacing=\"0\">\n\t<tr><td>a</td></tr>\n</table>"
    );
    let multi = convert_into_multiple_tables("a\n\nb");
    assert!(multi.contains("<br>"));
    assert!(multi.starts_with("<table"));
}

#[test]
fn test_normalize_chinese_punctuation() {
    assert_eq!(normalize_chinese_punctuation("a,b?c!"), "a\u{FF0C}b\u{FF1F}c\u{FF01}");
}

#[test]
fn test_normalize_a_b_dialogue() {
    assert_eq!(
        normalize_a_b_dialogue("A: hello B: hi"),
        "\u{300C}: hello\u{300D}\u{300C}: hi\u{300D}"
    );
    assert_eq!(normalize_a_b_dialogue("no dialogue"), "no dialogue");
}
