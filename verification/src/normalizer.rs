//! Pure text normalizations used when the corpus is re-emitted: capitalization,
//! table markup for multi-line fields, Chinese punctuation width, and the
//! `A ... B ...` dialogue convention.

use crate::text::{self, CharClass};
use vstd::prelude::*;
use vstd::string::StringExecFns;

verus! {

/// The first character uppercased (it may uppercase to several characters),
/// the rest kept.
pub open spec fn capitalize_spec(s: Seq<char>) -> Seq<char> {
    if s.len() == 0 {
        s
    } else {
        text::upper_chars(s[0]) + s.drop_first()
    }
}

/// Capitalizes the first character of a string.
pub fn capitalize_first_char(t: &str) -> (r: String)
    ensures
        r@ == capitalize_spec(t@),
{
    let chars = text::chars_vec(t);
    if chars.len() == 0 {
        let r = String::new();
        assert(r@ =~= capitalize_spec(t@));
        return r;
    }
    let mut out = text::char_to_uppercase(chars[0]);
    let rest = text::copy_range(&chars, 1, chars.len());
    proof {
        assert(rest@ =~= t@.drop_first());
    }
    text::append_chars(&mut out, &rest);
    text::chars_to_string(&out)
}

/// The rows-and-cells markup of a tab/newline-separated field.
pub open spec fn trs_and_tds_spec(s: Seq<char>) -> Seq<char> {
    "\t<tr><td>"@ + text::replace_pat(
        text::replace_pat(s, seq!['\t'], "</td><td>"@),
        seq!['\n'],
        "</td></tr>\n\t<tr><td>"@,
    ) + "</td></tr>\n"@
}

/// Turns tabs into cell breaks and newlines into row breaks.
pub fn convert_line_breaks_and_tabs_into_trs_and_tds(s: &str) -> (r: String)
    ensures
        r@ == trs_and_tds_spec(s@),
{
    let chars = text::chars_vec(s);
    let mut tab: Vec<char> = Vec::new();
    tab.push('\t');
    let mut nl: Vec<char> = Vec::new();
    nl.push('\n');
    proof {
        assert(tab@ =~= seq!['\t']);
        assert(nl@ =~= seq!['\n']);
    }
    let cell_sep = text::chars_vec("</td><td>");
    let row_sep = text::chars_vec("</td></tr>\n\t<tr><td>");
    let step1 = text::replace_all(&chars, &tab, &cell_sep);
    let step2 = text::replace_all(&step1, &nl, &row_sep);
    let mut r = String::new();
    r.append("\t<tr><td>");
    let mid = text::chars_to_string(&step2);
    r.append(mid.as_str());
    r.append("</td></tr>\n");
    r
}

/// One whole table holding the rows-and-cells markup.
pub open spec fn single_table_spec(s: Seq<char>) -> Seq<char> {
    "<table border=\"1\" cellpadding=\"5\" cellspacing=\"0\">\n"@ + trs_and_tds_spec(s)
        + "</table>"@
}

/// Wraps a tab/newline-separated field into one table.
pub fn convert_line_breaks_and_tabs_into_single_table(s: &str) -> (r: String)
    ensures
        r@ == single_table_spec(s@),
{
    let mut r = String::new();
    r.append("<table border=\"1\" cellpadding=\"5\" cellspacing=\"0\">\n");
    let mid = convert_line_breaks_and_tabs_into_trs_and_tds(s);
    r.append(mid.as_str());
    r.append("</table>");
    r
}

/// One table per blank-line-separated block, joined with `<br>`.
pub open spec fn multiple_tables_spec(s: Seq<char>) -> Seq<char> {
    text::join_with(
        text::split_pat(s, seq!['\n', '\n']).map_values(|b: Seq<char>| single_table_spec(b)),
        "<br>"@,
    )
}

/// Turns each blank-line-separated block into its own table.
pub fn convert_into_multiple_tables(s: &str) -> (r: String)
    ensures
        r@ == multiple_tables_spec(s@),
{
    let chars = text::chars_vec(s);
    let mut blank: Vec<char> = Vec::new();
    blank.push('\n');
    blank.push('\n');
    proof {
        assert(blank@ =~= seq!['\n', '\n']);
    }
    let blocks = text::split_at_pat(&chars, &blank);
    let ghost bv = blocks.deep_view();
    let mut parts: Vec<Vec<char>> = Vec::new();
    let mut i: usize = 0;
    while i < blocks.len()
        invariant
            i <= blocks@.len(),
            bv == blocks.deep_view(),
            bv.len() == blocks@.len(),
            parts.deep_view() == bv.take(i as int).map_values(|b: Seq<char>| single_table_spec(b)),
        decreases blocks@.len() - i,
    {
        proof {
            assert(bv[i as int] == blocks@[i as int]@);
        }
        let ghost prev = parts.deep_view();
        let ghost old_parts = parts;
        let block_str = text::chars_to_string(&blocks[i]);
        let table = convert_line_breaks_and_tabs_into_single_table(block_str.as_str());
        let piece = text::chars_vec(table.as_str());
        parts.push(piece);
        i = i + 1;
        proof {
            text::lemma_deep_view_push(old_parts, parts, piece);
            assert(piece.deep_view() =~= single_table_spec(bv[i - 1]));
            assert(prev.push(single_table_spec(bv[i - 1])) =~= bv.take(i as int).map_values(
                |b: Seq<char>| single_table_spec(b),
            ));
        }
    }
    proof {
        assert(bv.take(bv.len() as int) =~= bv);
    }
    let sep = text::chars_vec("<br>");
    let joined = text::join_chars(&parts, &sep);
    text::chars_to_string(&joined)
}

/// ASCII `, ? !` replaced by their full-width Chinese counterparts.
pub open spec fn chinese_punct_spec(s: Seq<char>) -> Seq<char> {
    text::replace_pat(
        text::replace_pat(text::replace_pat(s, seq![','], seq!['，']), seq!['?'], seq!['？']),
        seq!['!'],
        seq!['！'],
    )
}

/// Normalizes ASCII punctuation to full-width Chinese punctuation.
pub fn normalize_chinese_punctuation(s: &str) -> (r: String)
    ensures
        r@ == chinese_punct_spec(s@),
{
    let chars = text::chars_vec(s);
    let mut comma: Vec<char> = Vec::new();
    comma.push(',');
    let mut comma_w: Vec<char> = Vec::new();
    comma_w.push('，');
    let mut qm: Vec<char> = Vec::new();
    qm.push('?');
    let mut qm_w: Vec<char> = Vec::new();
    qm_w.push('？');
    let mut bang: Vec<char> = Vec::new();
    bang.push('!');
    let mut bang_w: Vec<char> = Vec::new();
    bang_w.push('！');
    proof {
        assert(comma@ =~= seq![',']);
        assert(comma_w@ =~= seq!['，']);
        assert(qm@ =~= seq!['?']);
        assert(qm_w@ =~= seq!['？']);
        assert(bang@ =~= seq!['!']);
        assert(bang_w@ =~= seq!['！']);
    }
    let step1 = text::replace_all(&chars, &comma, &comma_w);
    let step2 = text::replace_all(&step1, &qm, &qm_w);
    let step3 = text::replace_all(&step2, &bang, &bang_w);
    text::chars_to_string(&step3)
}

/// The `A ... B ...` dialogue convention rewritten with corner brackets: the
/// leading `A` is dropped and every speaker change becomes `」「`.
pub open spec fn a_b_dialogue_spec(s: Seq<char>) -> Seq<char> {
    if s.len() > 0 && s[0] == 'A' && text::seq_contains_char(s, 'B') {
        seq!['「'] + text::replace_pat(
            text::replace_pat(
                text::replace_pat(
                    text::replace_pat(s.drop_first(), seq![' ', 'B'], seq!['」', '「']),
                    seq!['B'],
                    seq!['」', '「'],
                ),
                seq![' ', 'A'],
                seq!['」', '「'],
            ),
            seq!['A'],
            seq!['」', '「'],
        ) + seq!['」']
    } else {
        s
    }
}

/// Rewrites an `A ... B ...` dialogue with corner brackets.
pub fn normalize_a_b_dialogue(s: &str) -> (r: String)
    ensures
        r@ == a_b_dialogue_spec(s@),
{
    let chars = text::chars_vec(s);
    if !(chars.len() > 0 && chars[0] == 'A' && text::contains_char(&chars, 'B')) {
        return text::chars_to_string(&chars);
    }
    let body = text::copy_range(&chars, 1, chars.len());
    proof {
        assert(body@ =~= s@.drop_first());
    }
    let mut sp_b: Vec<char> = Vec::new();
    sp_b.push(' ');
    sp_b.push('B');
    let mut just_b: Vec<char> = Vec::new();
    just_b.push('B');
    let mut sp_a: Vec<char> = Vec::new();
    sp_a.push(' ');
    sp_a.push('A');
    let mut just_a: Vec<char> = Vec::new();
    just_a.push('A');
    let mut brackets: Vec<char> = Vec::new();
    brackets.push('」');
    brackets.push('「');
    proof {
        assert(sp_b@ =~= seq![' ', 'B']);
        assert(just_b@ =~= seq!['B']);
        assert(sp_a@ =~= seq![' ', 'A']);
        assert(just_a@ =~= seq!['A']);
        assert(brackets@ =~= seq!['」', '「']);
    }
    let step1 = text::replace_all(&body, &sp_b, &brackets);
    let step2 = text::replace_all(&step1, &just_b, &brackets);
    let step3 = text::replace_all(&step2, &sp_a, &brackets);
    let step4 = text::replace_all(&step3, &just_a, &brackets);
    let mut out: Vec<char> = Vec::new();
    out.push('「');
    text::append_chars(&mut out, &step4);
    out.push('」');
    proof {
        assert(out@ =~= a_b_dialogue_spec(s@));
    }
    text::chars_to_string(&out)
}

} // verus!
