//! Recursive rendering of dismantling trees into nested markup frames.

use crate::text;
use vstd::prelude::*;
use vstd::string::StringExecFns;

verus! {

/// A rendering tree: a labelled leaf, or an optionally labelled subtree of
/// two or three children.
pub enum Tree<T> {
    Leaf { label: T },
    MaybeLabelledSubTree { label: Option<T>, subtree: Subtree<T> },
}

pub enum Subtree<T> {
    Binary(Box<Tree<T>>, Box<Tree<T>>),
    Trinary(Box<Tree<T>>, Box<Tree<T>>, Box<Tree<T>>),
}

/// Every line of the input indented by `depth` four-space steps.
pub open spec fn indent_spec(depth: nat, input: Seq<char>) -> Seq<char> {
    text::join_with(
        text::lines_spec(input).map_values(
            |l: Seq<char>| text::repeat_seq(seq![' ', ' ', ' ', ' '], depth) + l,
        ),
        seq!['\n'],
    )
}

/// Indents every line of the input by `depth` four-space steps.
pub fn indent(depth: usize, input: &str) -> (r: String)
    ensures
        r@ == indent_spec(depth as nat, input@),
{
    let chars = text::chars_vec(input);
    let lines = text::lines_vec(&chars);
    let ghost lv = lines.deep_view();
    let mut step: Vec<char> = Vec::new();
    step.push(' ');
    step.push(' ');
    step.push(' ');
    step.push(' ');
    proof {
        assert(step@ =~= seq![' ', ' ', ' ', ' ']);
    }
    let prefix = text::repeat_chars(&step, depth);
    let mut parts: Vec<Vec<char>> = Vec::new();
    let mut i: usize = 0;
    proof {
        assert(parts.deep_view() =~= lv.take(0).map_values(
            |l: Seq<char>| text::repeat_seq(seq![' ', ' ', ' ', ' '], depth as nat) + l,
        ));
    }
    while i < lines.len()
        invariant
            i <= lines@.len(),
            lv == lines.deep_view(),
            lv.len() == lines@.len(),
            prefix@ == text::repeat_seq(seq![' ', ' ', ' ', ' '], depth as nat),
            parts.deep_view() == lv.take(i as int).map_values(
                |l: Seq<char>| text::repeat_seq(seq![' ', ' ', ' ', ' '], depth as nat) + l,
            ),
        decreases lines@.len() - i,
    {
        proof {
            assert(lv[i as int] == lines@[i as int]@);
        }
        let mut piece = text::copy_range(&prefix, 0, prefix.len());
        proof {
            assert(piece@ =~= prefix@);
        }
        text::append_chars(&mut piece, &lines[i]);
        let ghost old_parts = parts;
        parts.push(piece);
        i = i + 1;
        proof {
            text::lemma_deep_view_push(old_parts, parts, piece);
            assert(piece.deep_view() =~= prefix@ + lv[i - 1]);
            assert(old_parts.deep_view().push(prefix@ + lv[i - 1]) =~= lv.take(
                i as int,
            ).map_values(
                |l: Seq<char>| text::repeat_seq(seq![' ', ' ', ' ', ' '], depth as nat) + l,
            ));
        }
    }
    proof {
        assert(lv.take(lv.len() as int) =~= lv);
    }
    let mut nl: Vec<char> = Vec::new();
    nl.push('\n');
    proof {
        assert(nl@ =~= seq!['\n']);
    }
    let joined = text::join_chars(&parts, &nl);
    text::chars_to_string(&joined)
}

/// The bar rendered for one node label: the two operator marks get a bare
/// bar, a glyph gets a linked bar with its bitmap.
pub open spec fn a_chars(c: char) -> Seq<char> {
    if c == '💥' || c == '↺' {
        "\n    <div class=\"dismantling-bar\">\n        <span lang=\"ja\">"@ + seq![c]
            + "</span>\n    </div>\n"@
    } else {
        "<a href=\"./"@ + seq![c] + ".html\" style=\"text-decoration: none;\">\n    <div class=\"dismantling-bar\">\n        <span style=\"font-family: LinzklarRounded;\">"@
            + seq![c] + "</span><span lang=\"ja\">【"@ + seq![c]
            + "】</span>\n    </div>\n</a>"@
    }
}

/// Renders the bar for one node label.
pub fn a(c: char) -> (r: String)
    ensures
        r@ == a_chars(c),
{
    let mut r = String::new();
    if c == '💥' || c == '↺' {
        r.append("\n    <div class=\"dismantling-bar\">\n        <span lang=\"ja\">");
        text::push_char(&mut r, c);
        r.append("</span>\n    </div>\n");
    } else {
        r.append(
            "<a href=\"./",
        );
        text::push_char(&mut r, c);
        r.append(
            ".html\" style=\"text-decoration: none;\">\n    <div class=\"dismantling-bar\">\n        <span style=\"font-family: LinzklarRounded;\">",
        );
        text::push_char(&mut r, c);
        r.append("</span><span lang=\"ja\">【");
        text::push_char(&mut r, c);
        r.append("】</span>\n    </div>\n</a>");
    }
    proof {
        assert(r@ =~= a_chars(c));
    }
    r
}

/// A two-pane frame holding the two renderings, each indented twice.
pub open spec fn binary_chars(s1: Seq<char>, s2: Seq<char>) -> Seq<char> {
    "<div class=\"dismantling-frame\">\n    <div style=\"flex: 50%\">\n"@ + indent_spec(2, s1)
        + "\n    </div>\n    <div style=\"flex: 50%\">\n"@ + indent_spec(2, s2)
        + "\n    </div>\n</div>"@
}

/// Renders a two-pane frame.
pub fn binary(s1: &str, s2: &str) -> (r: String)
    ensures
        r@ == binary_chars(s1@, s2@),
{
    let mut r = String::new();
    r.append("<div class=\"dismantling-frame\">\n    <div style=\"flex: 50%\">\n");
    let i1 = indent(2, s1);
    r.append(i1.as_str());
    r.append("\n    </div>\n    <div style=\"flex: 50%\">\n");
    let i2 = indent(2, s2);
    r.append(i2.as_str());
    r.append("\n    </div>\n</div>");
    proof {
        assert(r@ =~= binary_chars(s1@, s2@));
    }
    r
}

/// A three-pane frame holding the three renderings, each indented twice.
pub open spec fn trinary_chars(s1: Seq<char>, s2: Seq<char>, s3: Seq<char>) -> Seq<char> {
    "<div class=\"dismantling-frame\">\n    <div style=\"flex: 33.3333333%\">\n"@ + indent_spec(
        2,
        s1,
    ) + "\n    </div>\n    <div style=\"flex: 33.3333333%\">\n"@ + indent_spec(2, s2)
        + "\n    </div>\n    <div style=\"flex: 33.3333333%\">\n"@ + indent_spec(2, s3)
        + "\n    </div>\n</div>"@
}

/// Renders a three-pane frame.
pub fn trinary(s1: &str, s2: &str, s3: &str) -> (r: String)
    ensures
        r@ == trinary_chars(s1@, s2@, s3@),
{
    let mut r = String::new();
    r.append("<div class=\"dismantling-frame\">\n    <div style=\"flex: 33.3333333%\">\n");
    let i1 = indent(2, s1);
    r.append(i1.as_str());
    r.append("\n    </div>\n    <div style=\"flex: 33.3333333%\">\n");
    let i2 = indent(2, s2);
    r.append(i2.as_str());
    r.append("\n    </div>\n    <div style=\"flex: 33.3333333%\">\n");
    let i3 = indent(2, s3);
    r.append(i3.as_str());
    r.append("\n    </div>\n</div>");
    proof {
        assert(r@ =~= trinary_chars(s1@, s2@, s3@));
    }
    r
}

/// The whole rendering of a tree: the label bar (if any), then the frame of
/// the recursively rendered children.
pub open spec fn foo3_chars(t: Tree<char>) -> Seq<char>
    decreases t,
{
    match t {
        Tree::Leaf { label } => a_chars(label),
        Tree::MaybeLabelledSubTree { label, subtree } => (match label {
            None => Seq::empty(),
            Some(l) => a_chars(l),
        }) + seq!['\n'] + (match subtree {
            Subtree::Binary(t1, t2) => binary_chars(foo3_chars(*t1), foo3_chars(*t2)),
            Subtree::Trinary(t1, t2, t3) => trinary_chars(
                foo3_chars(*t1),
                foo3_chars(*t2),
                foo3_chars(*t3),
            ),
        }),
    }
}

/// Renders a tree into nested frames.
pub fn foo3(t: Tree<char>) -> (r: String)
    ensures
        r@ == foo3_chars(t),
    decreases t,
{
    match t {
        Tree::Leaf { label } => a(label),
        Tree::MaybeLabelledSubTree { label, subtree } => {
            let mut r = match label {
                None => String::new(),
                Some(l) => a(l),
            };
            text::push_char(&mut r, '\n');
            let body = match subtree {
                Subtree::Binary(t1, t2) => {
                    let r1 = foo3(*t1);
                    let r2 = foo3(*t2);
                    binary(r1.as_str(), r2.as_str())
                },
                Subtree::Trinary(t1, t2, t3) => {
                    let r1 = foo3(*t1);
                    let r2 = foo3(*t2);
                    let r3 = foo3(*t3);
                    trinary(r1.as_str(), r2.as_str(), r3.as_str())
                },
            };
            r.append(body.as_str());
            r
        },
    }
}

} // verus!
