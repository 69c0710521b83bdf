//! Display snippets: canonical text with its page and heading markers
//! removed, lines trimmed, and runs of blank lines folded into one.
use vstd::prelude::*;
use crate::app_error::AppResult;
use crate::text::{chars_of, push_str, push_char, trimmed, trim, is_blank, string_from_range};

verus! {

/// An ASCII decimal digit.
pub open spec fn is_digit(c: char) -> bool {
    '0' <= c <= '9'
}

/// A marker line: `[[PAGE:` four digits `]]`, or `[[H` a level from 1 to 6
/// `:` anything `]]`.
pub open spec fn is_marker(s: Seq<char>) -> bool {
    ||| (s.len() == 13 && s.subrange(0, 7) == "[[PAGE:"@ && is_digit(s[7]) && is_digit(s[8]) && is_digit(s[9])
        && is_digit(s[10]) && s.subrange(11, 13) == "]]"@)
    ||| (s.len() >= 7 && s.subrange(0, 3) == "[[H"@ && '1' <= s[3] <= '6' && s[4] == ':' && s.subrange(
        s.len() - 2,
        s.len() as int,
    ) == "]]"@ && forall|i: int| 5 <= i < s.len() - 2 ==> s[i] != '\n')
}

/// `Regex::is_match` (regex) with the marker pattern
/// `^\[\[(PAGE:[0-9]{4}|H[1-6]:.*)\]\]$`: whether a line is a marker.
#[verifier::external_body]
fn marker_match(line: &str) -> (r: bool)
    ensures
        r == is_marker(line@),
{
    let re = regex::Regex::new(r"^\[\[(PAGE:[0-9]{4}|H[1-6]:.*)\]\]$").expect("valid regex");
    re.is_match(line)
}

/// The lines of a text as `str::lines` gives them: split at `\n`, a final
/// `\n` ending the last line, and one `\r` before each `\n` dropped.
pub open spec fn lines_of(s: Seq<char>) -> Seq<Seq<char>>
    decreases s.len(),
{
    if s.len() == 0 {
        Seq::empty()
    } else {
        let k = crate::sync_transport::index_of(s, '\n');
        if k < s.len() {
            proof {
                lemma_index_of_bounds(s, '\n');
            }
            let line = s.subrange(0, k);
            let line = if line.len() > 0 && line.last() == '\r' { line.drop_last() } else { line };
            seq![line] + lines_of(s.subrange(k + 1, s.len() as int))
        } else {
            let line = if s.len() > 0 && s.last() == '\r' { s.drop_last() } else { s };
            seq![line]
        }
    }
}

pub proof fn lemma_index_of_bounds(s: Seq<char>, c: char)
    ensures
        0 <= crate::sync_transport::index_of(s, c) <= s.len(),
    decreases s.len(),
{
    if s.len() > 0 && s[0] != c {
        lemma_index_of_bounds(s.drop_first(), c);
    }
}

/// The lines kept from `ls`, and whether the last kept one was blank:
/// markers dropped, lines trimmed, a blank line after a blank one dropped.
pub open spec fn kept_lines(ls: Seq<Seq<char>>) -> (Seq<Seq<char>>, bool)
    decreases ls.len(),
{
    if ls.len() == 0 {
        (Seq::empty(), false)
    } else {
        let (prev, blank) = kept_lines(ls.drop_last());
        let t = trim(ls.last());
        if is_marker(t) {
            (prev, blank)
        } else if t.len() == 0 {
            if blank {
                (prev, blank)
            } else {
                (prev.push(Seq::empty()), true)
            }
        } else {
            (prev.push(t), false)
        }
    }
}

/// Lines joined with `\n`.
pub open spec fn joined(ls: Seq<Seq<char>>) -> Seq<char>
    decreases ls.len(),
{
    if ls.len() == 0 {
        Seq::empty()
    } else if ls.len() == 1 {
        ls[0]
    } else {
        joined(ls.drop_last()) + "\n"@ + ls.last()
    }
}

/// The display form of a text.
pub open spec fn snippet_of(text: Seq<char>) -> Seq<char> {
    trim(joined(kept_lines(lines_of(text)).0))
}

fn split_lines(text: &str) -> (r: Vec<String>)
    ensures
        r@.map_values(|l: String| l@) == lines_of(text@),
{
    let cs = chars_of(text);
    let mut out: Vec<String> = Vec::new();
    let mut start: usize = 0;
    proof {
        assert(cs@.subrange(0, cs@.len() as int) =~= text@);
    }
    while start < cs.len()
        invariant
            cs@ == text@,
            start <= cs@.len(),
            out@.map_values(|l: String| l@) + lines_of(cs@.subrange(start as int, cs@.len() as int)) == lines_of(text@),
        decreases cs.len() - start,
    {
        let ghost rest = cs@.subrange(start as int, cs@.len() as int);
        let mut k = start;
        while k < cs.len() && cs[k] != '\n'
            invariant
                start <= k <= cs@.len(),
                forall|j: int| start <= j < k ==> cs@[j] != '\n',
            decreases cs.len() - k,
        {
            k = k + 1;
        }
        proof {
            assert forall|j: int| 0 <= j < k - start implies rest[j] != '\n' by {
                assert(rest[j] == cs@[start + j]);
            }
            if k < cs.len() {
                assert(rest[k - start] == cs@[k as int]);
            }
            crate::sync_transport::lemma_index_of(rest, '\n', k - start);
        }
        let end = if k > start && cs[k - 1] == '\r' { k - 1 } else { k };
        let line = string_from_range(&cs, start, end);
        let ghost before = out@.map_values(|l: String| l@);
        out.push(line);
        proof {
            let raw = rest.subrange(0, k - start);
            assert(raw =~= cs@.subrange(start as int, k as int));
            if k > start && cs@[k - 1] == '\r' {
                assert(raw.last() == cs@[k - 1]);
                assert(raw.drop_last() =~= cs@.subrange(start as int, end as int));
            }
            assert(out@.map_values(|l: String| l@) =~= before.push(line@));
            if k < cs.len() {
                assert(rest.subrange(k - start + 1, rest.len() as int) =~= cs@.subrange(k + 1, cs@.len() as int));
                assert(lines_of(rest) == seq![line@] + lines_of(cs@.subrange(k + 1, cs@.len() as int)));
                assert(before.push(line@) + lines_of(cs@.subrange(k + 1, cs@.len() as int)) =~= before + lines_of(rest));
            } else {
                assert(lines_of(rest) == seq![line@]);
                assert(cs@.subrange(cs@.len() as int, cs@.len() as int) =~= Seq::<char>::empty());
                assert(before.push(line@) + lines_of(Seq::<char>::empty()) =~= before + lines_of(rest));
            }
        }
        start = if k < cs.len() { k + 1 } else { k };
    }
    proof {
        assert(cs@.subrange(start as int, cs@.len() as int) =~= Seq::<char>::empty());
        assert(out@.map_values(|l: String| l@) =~= out@.map_values(|l: String| l@) + lines_of(Seq::<char>::empty()));
    }
    out
}

/// The display form of a text: marker lines removed, each line trimmed,
/// consecutive blank lines folded into one, the whole trimmed.
pub fn render_snippet_display_only(text: &str) -> (r: AppResult<String>)
    ensures
        r is Ok,
        r->Ok_0@ == snippet_of(text@),
{
    let lines = split_lines(text);
    let ghost ls = lines_of(text@);
    let mut kept: Vec<String> = Vec::new();
    let mut prev_blank = false;
    let mut i: usize = 0;
    proof {
        assert(ls.take(0) =~= Seq::<Seq<char>>::empty());
        assert(kept@.map_values(|l: String| l@) =~= Seq::<Seq<char>>::empty());
    }
    while i < lines.len()
        invariant
            i <= lines@.len(),
            lines@.map_values(|l: String| l@) == ls,
            kept@.map_values(|l: String| l@) == kept_lines(ls.take(i as int)).0,
            prev_blank == kept_lines(ls.take(i as int)).1,
        decreases lines.len() - i,
    {
        let t = trimmed(lines[i].as_str());
        let ghost before = kept@.map_values(|l: String| l@);
        proof {
            assert(ls.take(i + 1).drop_last() =~= ls.take(i as int));
            assert(ls.take(i + 1).last() == ls[i as int]);
            assert(ls[i as int] == lines@[i as int]@);
        }
        if marker_match(t.as_str()) {
        } else if t.as_str().is_empty() {
            if !prev_blank {
                prev_blank = true;
                kept.push(String::new());
                proof {
                    assert(kept@.map_values(|l: String| l@) =~= before.push(Seq::<char>::empty()));
                }
            }
        } else {
            prev_blank = false;
            kept.push(t);
            proof {
                assert(kept@.map_values(|l: String| l@) =~= before.push(trim(ls[i as int])));
            }
        }
        i = i + 1;
    }
    proof {
        assert(ls.take(i as int) =~= ls);
    }
    let mut out = String::new();
    let mut j: usize = 0;
    let ghost ks = kept@.map_values(|l: String| l@);
    while j < kept.len()
        invariant
            j <= kept@.len(),
            ks == kept@.map_values(|l: String| l@),
            out@ == joined(ks.take(j as int)),
        decreases kept.len() - j,
    {
        proof {
            assert(ks.take(j + 1).drop_last() =~= ks.take(j as int));
            assert(ks.take(j + 1).last() == kept@[j as int]@);
        }
        if j > 0 {
            push_str(&mut out, "\n");
        }
        push_str(&mut out, kept[j].as_str());
        proof {
            if j == 0 {
                assert(ks.take(1) =~= seq![kept@[0]@]);
            }
        }
        j = j + 1;
    }
    proof {
        assert(ks.take(j as int) =~= ks);
    }
    Ok(trimmed(out.as_str()))
}

/// Marker lines leave no trace: putting a marker line anywhere among the
/// lines changes neither the lines kept nor the blank-run state, so the
/// blank lines around a marker still fold together.
pub proof fn law_marker_lines_leave_no_trace(ls: Seq<Seq<char>>, i: int, m: Seq<char>)
    requires
        0 <= i <= ls.len(),
        is_marker(trim(m)),
    ensures
        kept_lines(ls.insert(i, m)) == kept_lines(ls),
    decreases ls.len(),
{
    let t = ls.insert(i, m);
    if i == ls.len() {
        assert(t.drop_last() =~= ls);
        assert(t.last() == m);
    } else {
        assert(t.drop_last() =~= ls.drop_last().insert(i, m));
        assert(t.last() == ls.last());
        law_marker_lines_leave_no_trace(ls.drop_last(), i, m);
    }
}

/// The kept lines never hold two blank lines in a row, and the state says
/// whether the last kept line is blank.
pub proof fn law_no_two_blank_lines(ls: Seq<Seq<char>>)
    ensures
        ({
            let (out, blank) = kept_lines(ls);
            &&& blank <==> (out.len() > 0 && out.last().len() == 0)
            &&& forall|k: int| 0 <= k < out.len() - 1 ==> !(#[trigger] out[k].len() == 0 && out[k + 1].len() == 0)
        }),
    decreases ls.len(),
{
    if ls.len() > 0 {
        law_no_two_blank_lines(ls.drop_last());
        let (prev, blank) = kept_lines(ls.drop_last());
        let t = trim(ls.last());
        let (out, b2) = kept_lines(ls);
        if !is_marker(t) {
            if t.len() == 0 {
                if !blank {
                    assert(out == prev.push(Seq::<char>::empty()));
                    assert forall|k: int| 0 <= k < out.len() - 1 implies !(#[trigger] out[k].len() == 0 && out[k + 1].len() == 0) by {
                        if k + 1 < prev.len() {
                            assert(out[k] == prev[k] && out[k + 1] == prev[k + 1]);
                        } else {
                            assert(out[k] == prev.last());
                        }
                    }
                }
            } else {
                assert(out == prev.push(t));
                assert forall|k: int| 0 <= k < out.len() - 1 implies !(#[trigger] out[k].len() == 0 && out[k + 1].len() == 0) by {
                    if k + 1 < prev.len() {
                        assert(out[k] == prev[k] && out[k + 1] == prev[k + 1]);
                    } else {
                        assert(out[k + 1] == t);
                    }
                }
            }
        }
    }
}

/// No newline in a text.
pub open spec fn no_newline(s: Seq<char>) -> bool {
    forall|i: int| 0 <= i < s.len() ==> #[trigger] s[i] != '\n'
}

/// No three newlines in a row: no two blank lines follow each other.
pub open spec fn no_blank_run(s: Seq<char>) -> bool {
    forall|i: int| 0 <= i && i + 2 < s.len() ==> !(#[trigger] s[i] == '\n' && s[i + 1] == '\n' && s[i + 2] == '\n')
}

proof fn lemma_before_index(s: Seq<char>, c: char)
    ensures
        forall|i: int| 0 <= i < crate::sync_transport::index_of(s, c) && i < s.len() ==> #[trigger] s[i] != c,
    decreases s.len(),
{
    if s.len() > 0 && s[0] != c {
        lemma_before_index(s.drop_first(), c);
        assert forall|i: int| 0 <= i < crate::sync_transport::index_of(s, c) && i < s.len() implies #[trigger] s[i] != c by {
            if i > 0 {
                assert(s[i] == s.drop_first()[i - 1]);
            }
        }
    }
}

proof fn lemma_lines_no_newline(s: Seq<char>)
    ensures
        forall|k: int| 0 <= k < lines_of(s).len() ==> no_newline(#[trigger] lines_of(s)[k]),
    decreases s.len(),
{
    if s.len() > 0 {
        let k = crate::sync_transport::index_of(s, '\n');
        lemma_index_of_bounds(s, '\n');
        lemma_before_index(s, '\n');
        if k < s.len() {
            let line = s.subrange(0, k);
            let line2 = if line.len() > 0 && line.last() == '\r' { line.drop_last() } else { line };
            assert(no_newline(line2)) by {
                assert forall|i: int| 0 <= i < line2.len() implies #[trigger] line2[i] != '\n' by {
                    assert(line2[i] == s[i]);
                }
            }
            lemma_lines_no_newline(s.subrange(k + 1, s.len() as int));
            let rest = lines_of(s.subrange(k + 1, s.len() as int));
            assert(lines_of(s) == seq![line2] + rest);
            assert forall|j: int| 0 <= j < lines_of(s).len() implies no_newline(#[trigger] lines_of(s)[j]) by {
                if j > 0 {
                    assert(lines_of(s)[j] == rest[j - 1]);
                }
            }
        } else {
            let line2 = if s.len() > 0 && s.last() == '\r' { s.drop_last() } else { s };
            assert forall|i: int| 0 <= i < line2.len() implies #[trigger] line2[i] != '\n' by {
                assert(line2[i] == s[i]);
            }
            assert(lines_of(s) == seq![line2]);
        }
    }
}

proof fn lemma_trim_within(s: Seq<char>)
    ensures
        exists|a: int| 0 <= a && a + trim(s).len() <= s.len() && trim(s) == #[trigger] s.subrange(a, a + trim(s).len()),
{
    crate::text::lemma_lead_ws_bound(s);
    let l = crate::text::lead_ws(s) as int;
    let a = s.subrange(l, s.len() as int);
    crate::text::lemma_trail_ws_bound(a);
    assert(trim(s) =~= s.subrange(l, l + trim(s).len()));
}

proof fn lemma_kept_no_newline(ls: Seq<Seq<char>>)
    requires
        forall|k: int| 0 <= k < ls.len() ==> no_newline(#[trigger] ls[k]),
    ensures
        forall|k: int| 0 <= k < kept_lines(ls).0.len() ==> no_newline(#[trigger] kept_lines(ls).0[k]),
    decreases ls.len(),
{
    if ls.len() > 0 {
        let d = ls.drop_last();
        assert forall|k: int| 0 <= k < d.len() implies no_newline(#[trigger] d[k]) by {
            assert(d[k] == ls[k]);
        }
        lemma_kept_no_newline(d);
        let t = trim(ls.last());
        assert(no_newline(ls[ls.len() - 1]));
        lemma_trim_within(ls.last());
        let a = choose|a: int| 0 <= a && a + t.len() <= ls.last().len() && t == #[trigger] ls.last().subrange(a, a + t.len());
        assert forall|i: int| 0 <= i < t.len() implies #[trigger] t[i] != '\n' by {
            assert(t[i] == ls.last()[a + i]);
        }
        let prev = kept_lines(d).0;
        let out = kept_lines(ls).0;
        assert forall|k: int| 0 <= k < out.len() implies no_newline(#[trigger] out[k]) by {
            if k < prev.len() {
                assert(out[k] == prev[k]);
            }
        }
    }
}

proof fn lemma_joined_no_run(out: Seq<Seq<char>>)
    requires
        forall|k: int| 0 <= k < out.len() ==> no_newline(#[trigger] out[k]),
        forall|k: int| 0 <= k < out.len() - 1 ==> !(#[trigger] out[k].len() == 0 && out[k + 1].len() == 0),
    ensures
        no_blank_run(joined(out)),
        joined(out).len() > 0 && joined(out).last() == '\n' ==> out.len() >= 2 && out.last().len() == 0,
    decreases out.len(),
{
    if out.len() == 1 {
        assert(joined(out) == out[0]);
        assert(no_newline(out[0]));
    } else if out.len() >= 2 {
        let p = out.drop_last();
        let l = out.last();
        assert(no_newline(out[out.len() - 1]));
        assert forall|k: int| 0 <= k < p.len() implies no_newline(#[trigger] p[k]) by {
            assert(p[k] == out[k]);
        }
        assert forall|k: int| 0 <= k < p.len() - 1 implies !(#[trigger] p[k].len() == 0 && p[k + 1].len() == 0) by {
            assert(p[k] == out[k] && p[k + 1] == out[k + 1]);
        }
        lemma_joined_no_run(p);
        reveal_strlit("\n");
        let jp = joined(p);
        let j = joined(out);
        let n = jp.len() as int;
        assert(j == jp + "\n"@ + l);
        assert(j[n] == '\n');
        assert forall|i: int| 0 <= i && i + 2 < j.len() implies !(#[trigger] j[i] == '\n' && j[i + 1] == '\n' && j[i + 2] == '\n') by {
            if i + 2 < n {
                assert(j[i] == jp[i] && j[i + 1] == jp[i + 1] && j[i + 2] == jp[i + 2]);
            } else if i + 2 == n {
                assert(j[i] == jp[i] && j[i + 1] == jp[i + 1]);
                if j[i] == '\n' && j[i + 1] == '\n' {
                    assert(jp.last() == '\n');
                    let pp = p.drop_last();
                    assert(jp == joined(pp) + "\n"@ + p.last());
                    assert(p.last().len() == 0);
                    assert(jp =~= joined(pp) + "\n"@);
                    if joined(pp).len() > 0 {
                        assert(joined(pp).last() == jp[n - 2]);
                        if p.len() >= 3 {
                            assert(pp.last() == p[p.len() - 2]);
                        } else {
                            assert(joined(pp) == pp[0]);
                            assert(no_newline(p[0]));
                            assert(pp[0] == p[0]);
                            assert(joined(pp)[joined(pp).len() - 1] == p[0][p[0].len() - 1]);
                        }
                        assert(p[p.len() - 2].len() == 0);
                        assert(out[p.len() - 2] == p[p.len() - 2]);
                        assert(out[p.len() - 1] == p[p.len() - 1]);
                        assert(false);
                    }
                }
            } else if i + 1 == n {
                if l.len() > 0 {
                    assert(j[i + 2] == l[0]);
                }
            } else if i == n {
                assert(j[i + 1] == l[0]);
            } else {
                assert(j[i] == l[i - n - 1]);
            }
        }
        if j.len() > 0 && j.last() == '\n' {
            if l.len() > 0 {
                assert(j.last() == l.last());
                assert(l[l.len() - 1] != '\n');
            }
        }
    }
}

/// A rendered snippet never holds two blank lines in a row: no three
/// newlines follow each other anywhere in it.
pub proof fn law_snippet_has_no_blank_run(text: Seq<char>)
    ensures
        no_blank_run(snippet_of(text)),
{
    let ls = lines_of(text);
    lemma_lines_no_newline(text);
    lemma_kept_no_newline(ls);
    law_no_two_blank_lines(ls);
    let out = kept_lines(ls).0;
    lemma_joined_no_run(out);
    let j = joined(out);
    lemma_trim_within(j);
    let t = trim(j);
    let a = choose|a: int| 0 <= a && a + t.len() <= j.len() && t == #[trigger] j.subrange(a, a + t.len());
    assert forall|i: int| 0 <= i && i + 2 < t.len() implies !(#[trigger] t[i] == '\n' && t[i + 1] == '\n' && t[i + 2] == '\n') by {
        assert(t[i] == j[a + i] && t[i + 1] == j[a + i + 1] && t[i + 2] == j[a + i + 2]);
    }
}

/// Two texts whose lines differ only by one marker line render alike:
/// dropping a marker line from the input does not change the snippet.
pub proof fn law_marker_line_changes_nothing(t1: Seq<char>, t2: Seq<char>, i: int, m: Seq<char>)
    requires
        0 <= i <= lines_of(t1).len(),
        is_marker(trim(m)),
        lines_of(t2) == lines_of(t1).insert(i, m),
    ensures
        snippet_of(t2) == snippet_of(t1),
{
    law_marker_lines_leave_no_trace(lines_of(t1), i, m);
}

} // verus!
