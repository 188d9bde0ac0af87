//! The template language and its compiled form.
//!
//! A template is literal text with `{{ name }}` placeholders.  Compilation
//! splits the source into literal and variable segments; execution replaces
//! each variable with its value's text — HTML-escaped when the caller asks
//! for it — and an unbound variable with the empty string.  A placeholder
//! opened and never closed is a compile error.

use vstd::prelude::*;
use crate::error::AppError;
use crate::text::{html_escape, html_escape_str, i64_to_string};
use crate::vars::{value_display, VarMap, VarValue, VarValueView};

verus! {

/// One piece of a compiled template.
#[derive(Debug, Clone, PartialEq, Eq)]
pub enum Segment {
    /// Literal text, emitted as is.
    Lit(String),
    /// A placeholder, emitting the named variable's value.
    Var(String),
}

/// The mathematical value of a segment.
pub ghost enum SegView {
    Lit(Seq<char>),
    Var(Seq<char>),
}

impl View for Segment {
    type V = SegView;

    open spec fn view(&self) -> SegView {
        match self {
            Segment::Lit(t) => SegView::Lit(t@),
            Segment::Var(n) => SegView::Var(n@),
        }
    }
}

/// The views of a segment vector.
pub open spec fn seg_views(s: Seq<Segment>) -> Seq<SegView> {
    s.map_values(|seg: Segment| seg@)
}

/// The least position `j >= from` where `a` immediately followed by `b`
/// occurs, if any.
pub open spec fn find_marker(s: Seq<char>, from: int, a: char, b: char) -> Option<int>
    decreases s.len() - from,
{
    if from < 0 || from + 2 > s.len() {
        None
    } else if s[from] == a && s[from + 1] == b {
        Some(from)
    } else {
        find_marker(s, from + 1, a, b)
    }
}

/// A found marker lies in range and matches.
pub proof fn lemma_find_marker_some(s: Seq<char>, from: int, a: char, b: char, j: int)
    requires
        find_marker(s, from, a, b) == Some(j),
    ensures
        from <= j,
        j + 2 <= s.len(),
        s[j] == a,
        s[j + 1] == b,
    decreases s.len() - from,
{
    if from < 0 || from + 2 > s.len() {
    } else if s[from] == a && s[from + 1] == b {
    } else {
        lemma_find_marker_some(s, from + 1, a, b, j);
    }
}

/// Leading spaces removed.
pub open spec fn ltrim(s: Seq<char>) -> Seq<char>
    decreases s.len(),
{
    if s.len() > 0 && s[0] == ' ' {
        ltrim(s.skip(1))
    } else {
        s
    }
}

/// Trailing spaces removed.
pub open spec fn rtrim(s: Seq<char>) -> Seq<char>
    decreases s.len(),
{
    if s.len() > 0 && s.last() == ' ' {
        rtrim(s.drop_last())
    } else {
        s
    }
}

/// Surrounding spaces removed, as a placeholder name is read.
pub open spec fn trim_spaces(s: Seq<char>) -> Seq<char> {
    rtrim(ltrim(s))
}

/// The compiled form of a template, if every placeholder is closed.
pub open spec fn spec_compile(tpl: Seq<char>) -> Option<Seq<SegView>>
    decreases tpl.len(),
    via spec_compile_decreases
{
    match find_marker(tpl, 0, '{', '{') {
        None => if tpl.len() == 0 {
            Some(Seq::empty())
        } else {
            Some(seq![SegView::Lit(tpl)])
        },
        Some(i) => match find_marker(tpl, i + 2, '}', '}') {
            None => None,
            Some(j) => match spec_compile(tpl.skip(j + 2)) {
                None => None,
                Some(rest) => {
                    let name = trim_spaces(tpl.subrange(i + 2, j));
                    let head: Seq<SegView> = if i > 0 {
                        seq![SegView::Lit(tpl.take(i))]
                    } else {
                        Seq::empty()
                    };
                    Some(head + seq![SegView::Var(name)] + rest)
                },
            },
        },
    }
}

#[via_fn]
proof fn spec_compile_decreases(tpl: Seq<char>) {
    match find_marker(tpl, 0, '{', '{') {
        Some(i) => {
            lemma_find_marker_some(tpl, 0, '{', '{', i);
            match find_marker(tpl, i + 2, '}', '}') {
                Some(j) => {
                    lemma_find_marker_some(tpl, i + 2, '}', '}', j);
                },
                None => {},
            }
        },
        None => {},
    }
}

/// What one segment contributes to the output.
pub open spec fn seg_display(seg: SegView, m: Map<Seq<char>, VarValueView>, escape: bool) -> Seq<
    char,
> {
    match seg {
        SegView::Lit(t) => t,
        SegView::Var(n) => if m.contains_key(n) {
            if escape {
                html_escape(value_display(m[n]))
            } else {
                value_display(m[n])
            }
        } else {
            Seq::empty()
        },
    }
}

/// The output of an entire compiled template.
pub open spec fn exec_segs(
    segs: Seq<SegView>,
    m: Map<Seq<char>, VarValueView>,
    escape: bool,
) -> Seq<char>
    decreases segs.len(),
{
    if segs.len() == 0 {
        Seq::empty()
    } else {
        exec_segs(segs.drop_last(), m, escape) + seg_display(segs.last(), m, escape)
    }
}

/// The rendered output of a template source, if it compiles.
pub open spec fn spec_render(
    tpl: Seq<char>,
    m: Map<Seq<char>, VarValueView>,
    escape: bool,
) -> Option<Seq<char>> {
    match spec_compile(tpl) {
        None => None,
        Some(segs) => Some(exec_segs(segs, m, escape)),
    }
}

/// Finds the least occurrence of the two-character marker `a``b` at or after
/// `from`.
fn find_marker_str(s: &str, from: usize, a: char, b: char) -> (r: Option<usize>)
    requires
        from <= s@.len(),
    ensures
        match r {
            Some(j) => Some(j as int) == find_marker(s@, from as int, a, b),
            None => find_marker(s@, from as int, a, b) is None,
        },
{
    let len: usize = s.unicode_len();
    let mut j: usize = from;
    while len >= 2 && j <= len - 2
        invariant
            from <= j,
            len == s@.len(),
            j <= len,
            find_marker(s@, from as int, a, b) == find_marker(s@, j as int, a, b),
        decreases len - j,
    {
        if s.get_char(j) == a && s.get_char(j + 1) == b {
            return Some(j);
        }
        j += 1;
    }
    None
}

/// Removes surrounding spaces from a placeholder name.
fn trim_str(s: &str) -> (r: &str)
    ensures
        r@ == trim_spaces(s@),
{
    let len: usize = s.unicode_len();
    let mut lo: usize = 0;
    while lo < len && s.get_char(lo) == ' '
        invariant
            lo <= len,
            len == s@.len(),
            forall|k: int| 0 <= k < lo ==> s@[k] == ' ',
        decreases len - lo,
    {
        lo += 1;
    }
    let mut hi: usize = len;
    while hi > lo && s.get_char(hi - 1) == ' '
        invariant
            lo <= hi <= len,
            len == s@.len(),
            forall|k: int| 0 <= k < lo ==> s@[k] == ' ',
            forall|k: int| hi <= k < len ==> s@[k] == ' ',
        decreases hi,
    {
        hi -= 1;
    }
    let r = s.substring_char(lo, hi);
    proof {
        lemma_ltrim_skip(s@, lo as int);
        let t = s@.skip(lo as int);
        assert forall|k: int| hi - lo <= k < t.len() implies t[k] == ' ' by {
            assert(t[k] == s@[k + lo]);
        }
        if hi == lo {
            lemma_rtrim_take(t, 0);
        } else {
            assert(t[hi - lo - 1] == s@[hi - 1]);
            lemma_rtrim_take(t, hi - lo as int);
        }
        assert(t.take(hi - lo as int) =~= s@.subrange(lo as int, hi as int));
    }
    r
}

/// If the first `i` characters are spaces and the next is not, `ltrim` skips
/// exactly `i`.
proof fn lemma_ltrim_skip(s: Seq<char>, i: int)
    requires
        0 <= i <= s.len(),
        forall|k: int| 0 <= k < i ==> s[k] == ' ',
        i == s.len() || s[i] != ' ',
    ensures
        ltrim(s) == s.skip(i),
    decreases i,
{
    if i == 0 {
        assert(s.skip(0) =~= s);
    } else {
        assert(s[0] == ' ');
        assert forall|k: int| 0 <= k < i - 1 implies s.skip(1)[k] == ' ' by {
            assert(s.skip(1)[k] == s[k + 1]);
        }
        if i - 1 < s.skip(1).len() {
            assert(s.skip(1)[i - 1] == s[i]);
        }
        lemma_ltrim_skip(s.skip(1), i - 1);
        assert(s.skip(1).skip(i - 1) =~= s.skip(i));
    }
}

/// If everything from `i` on is a space and the character before is not,
/// `rtrim` keeps exactly `i`.
proof fn lemma_rtrim_take(s: Seq<char>, i: int)
    requires
        0 <= i <= s.len(),
        forall|k: int| i <= k < s.len() ==> s[k] == ' ',
        i == 0 || s[i - 1] != ' ',
    ensures
        rtrim(s) == s.take(i),
    decreases s.len(),
{
    if i == s.len() {
        if s.len() > 0 && s.last() == ' ' {
            assert(s[i - 1] == ' ');
            assert(false);
        }
        assert(s.take(i) =~= s);
    } else {
        assert(s.last() == ' ');
        assert forall|k: int| i <= k < s.drop_last().len() implies s.drop_last()[k] == ' ' by {
            assert(s.drop_last()[k] == s[k]);
        }
        lemma_rtrim_take(s.drop_last(), i);
        assert(s.drop_last().take(i) =~= s.take(i));
    }
}

/// Compiles a template source, or reports an unclosed placeholder.
pub fn compile_template(tpl: &str) -> (r: Option<Vec<Segment>>)
    ensures
        match r {
            Some(v) => spec_compile(tpl@) == Some(seg_views(v@)),
            None => spec_compile(tpl@) is None,
        },
    decreases tpl@.len(),
{
    let len: usize = tpl.unicode_len();
    match find_marker_str(tpl, 0, '{', '{') {
        None => {
            let mut v: Vec<Segment> = Vec::new();
            if len > 0 {
                v.push(Segment::Lit(tpl.to_owned()));
            }
            proof {
                if len > 0 {
                    assert(seg_views(v@) =~= seq![SegView::Lit(tpl@)]);
                } else {
                    assert(seg_views(v@) =~= Seq::<SegView>::empty());
                }
            }
            Some(v)
        },
        Some(i) => {
            proof {
                lemma_find_marker_some(tpl@, 0, '{', '{', i as int);
            }
            match find_marker_str(tpl, i + 2, '}', '}') {
                None => None,
                Some(j) => {
                    proof {
                        lemma_find_marker_some(tpl@, i + 2 as int, '}', '}', j as int);
                    }
                    let name_raw = tpl.substring_char(i + 2, j);
                    let name = trim_str(name_raw);
                    let rest_src = tpl.substring_char(j + 2, len);
                    proof {
                        assert(rest_src@ =~= tpl@.skip(j + 2 as int));
                    }
                    match compile_template(rest_src) {
                        None => None,
                        Some(mut rest) => {
                            let mut segs: Vec<Segment> = Vec::new();
                            if i > 0 {
                                let lit = tpl.substring_char(0, i);
                                proof {
                                    assert(lit@ =~= tpl@.take(i as int));
                                }
                                segs.push(Segment::Lit(lit.to_owned()));
                            }
                            segs.push(Segment::Var(name.to_owned()));
                            let ghost pre = segs@;
                            let ghost rest0 = rest@;
                            segs.append(&mut rest);
                            proof {
                                let head: Seq<SegView> = if i > 0 {
                                    seq![SegView::Lit(tpl@.take(i as int))]
                                } else {
                                    Seq::empty()
                                };
                                assert(seg_views(segs@) =~= head + seq![
                                    SegView::Var(trim_spaces(tpl@.subrange(i + 2 as int, j as int))),
                                ] + seg_views(rest0));
                            }
                            Some(segs)
                        },
                    }
                },
            }
        },
    }
}

/// Executes a compiled template against a variable mapping.
pub fn execute_segments(segs: &Vec<Segment>, vars: &VarMap, escape: bool) -> (r: String)
    requires
        vars.wf(),
    ensures
        r@ == exec_segs(seg_views(segs@), vars@, escape),
{
    let mut out = String::new();
    let mut i: usize = 0;
    while i < segs.len()
        invariant
            i <= segs.len(),
            vars.wf(),
            out@ == exec_segs(seg_views(segs@).take(i as int), vars@, escape),
        decreases segs.len() - i,
    {
        proof {
            reveal_strlit("true");
            reveal_strlit("false");
        }
        match &segs[i] {
            Segment::Lit(t) => {
                out.append(t.as_str());
            },
            Segment::Var(n) => {
                match vars.get(n.as_str()) {
                    None => {},
                    Some(v) => {
                        match v {
                            VarValue::Str(s) => {
                                if escape {
                                    let es = html_escape_str(s.as_str());
                                    out.append(es.as_str());
                                } else {
                                    out.append(s.as_str());
                                }
                            },
                            VarValue::Int(k) => {
                                let ks = i64_to_string(*k);
                                if escape {
                                    let es = html_escape_str(ks.as_str());
                                    out.append(es.as_str());
                                } else {
                                    out.append(ks.as_str());
                                }
                            },
                            VarValue::Bool(b) => {
                                let bs = if *b {
                                    "true"
                                } else {
                                    "false"
                                };
                                if escape {
                                    let es = html_escape_str(bs);
                                    out.append(es.as_str());
                                } else {
                                    out.append(bs);
                                }
                            },
                        }
                    },
                }
            },
        }
        proof {
            let sv = seg_views(segs@);
            assert(sv.take(i as int + 1).drop_last() =~= sv.take(i as int));
            assert(sv.take(i as int + 1).last() == sv[i as int]);
            assert(sv[i as int] == segs@[i as int]@);
            assert(out@ =~= exec_segs(sv.take(i as int + 1), vars@, escape));
        }
        i += 1;
    }
    proof {
        assert(seg_views(segs@).take(segs@.len() as int) =~= seg_views(segs@));
    }
    out
}

/// An escaped interpolation can never open or close an HTML tag: whatever
/// value a variable takes, the text it contributes to an HTML render holds
/// no raw `<` or `>`.
pub proof fn lemma_interpolation_escaped(n: Seq<char>, m: Map<Seq<char>, VarValueView>)
    ensures
        forall|i: int|
            0 <= i < seg_display(SegView::Var(n), m, true).len() ==> seg_display(
                SegView::Var(n),
                m,
                true,
            )[i] != '<' && seg_display(SegView::Var(n), m, true)[i] != '>',
{
    if m.contains_key(n) {
        crate::text::lemma_html_escape_no_markup(value_display(m[n]));
    }
}

/// Renders a template source against a variable mapping, without escaping:
/// compile, then execute.
pub fn render_template(template: &str, variables: &VarMap) -> (r: Result<String, AppError>)
    requires
        variables.wf(),
    ensures
        match r {
            Ok(s) => spec_render(template@, variables@, false) == Some(s@),
            Err(e) => spec_render(template@, variables@, false) is None && e matches
                AppError::RenderError(_),
        },
{
    match compile_template(template) {
        None => Err(
            AppError::RenderError(String::from_str("unclosed placeholder in template")),
        ),
        Some(segs) => Ok(execute_segments(&segs, variables, false)),
    }
}

/// Renders with HTML escaping of interpolated values.
pub fn render_template_escaped(template: &str, variables: &VarMap) -> (r: Result<
    String,
    AppError,
>)
    requires
        variables.wf(),
    ensures
        match r {
            Ok(s) => spec_render(template@, variables@, true) == Some(s@),
            Err(e) => spec_render(template@, variables@, true) is None && e matches
                AppError::RenderError(_),
        },
{
    match compile_template(template) {
        None => Err(
            AppError::RenderError(String::from_str("unclosed placeholder in template")),
        ),
        Some(segs) => Ok(execute_segments(&segs, variables, true)),
    }
}

} // verus!
