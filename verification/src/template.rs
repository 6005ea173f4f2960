//! Topic template parsing.
//!
//! A topic template is a string with zero or more `{name}` placeholders.
//! Parsing extracts the placeholder names in first-occurrence order and
//! produces the normalized template, in which every `{name}` span is
//! replaced by the positional marker `{}`.  An opening brace with no
//! matching closing brace is not a placeholder: it and everything after
//! it are kept verbatim.

use vstd::prelude::*;

verus! {

/// Index of the first `'}'` in `t` at position `i` or later;
/// `t.len()` when there is none.
pub open spec fn find_close_from(t: Seq<char>, i: int) -> int
    decreases t.len() - i,
{
    if i < 0 || i >= t.len() {
        t.len() as int
    } else if t[i] == '}' {
        i
    } else {
        find_close_from(t, i + 1)
    }
}

pub proof fn lemma_find_close_from(t: Seq<char>, i: int)
    requires
        0 <= i <= t.len(),
    ensures
        i <= find_close_from(t, i) <= t.len(),
        find_close_from(t, i) < t.len() ==> t[find_close_from(t, i)] == '}',
        forall|m: int| i <= m < find_close_from(t, i) ==> t[m] != '}',
    decreases t.len() - i,
{
    if i < t.len() && t[i] != '}' {
        lemma_find_close_from(t, i + 1);
    }
}

/// The placeholder names of the template suffix starting at `i`,
/// in left-to-right order.
pub open spec fn placeholders_from(t: Seq<char>, i: int) -> Seq<Seq<char>>
    decreases t.len() - i,
    via placeholders_from_dec
{
    if i < 0 || i >= t.len() {
        Seq::empty()
    } else if t[i] == '{' {
        let j = find_close_from(t, i + 1);
        if j >= t.len() {
            Seq::empty()
        } else {
            seq![t.subrange(i + 1, j)] + placeholders_from(t, j + 1)
        }
    } else {
        placeholders_from(t, i + 1)
    }
}

#[via_fn]
proof fn placeholders_from_dec(t: Seq<char>, i: int) {
    if 0 <= i < t.len() && t[i] == '{' {
        lemma_find_close_from(t, i + 1);
    }
}

/// The normalized form of the template suffix starting at `i`:
/// every placeholder span `{name}` becomes the marker `{}`.
pub open spec fn normalized_from(t: Seq<char>, i: int) -> Seq<char>
    decreases t.len() - i,
    via normalized_from_dec
{
    if i < 0 || i >= t.len() {
        Seq::empty()
    } else if t[i] == '{' {
        let j = find_close_from(t, i + 1);
        if j >= t.len() {
            t.subrange(i, t.len() as int)
        } else {
            seq!['{', '}'] + normalized_from(t, j + 1)
        }
    } else {
        seq![t[i]] + normalized_from(t, i + 1)
    }
}

#[via_fn]
proof fn normalized_from_dec(t: Seq<char>, i: int) {
    if 0 <= i < t.len() && t[i] == '{' {
        lemma_find_close_from(t, i + 1);
    }
}

/// The template suffix starting at `i` with every placeholder span
/// removed outright.
pub open spec fn stripped_from(t: Seq<char>, i: int) -> Seq<char>
    decreases t.len() - i,
    via stripped_from_dec
{
    if i < 0 || i >= t.len() {
        Seq::empty()
    } else if t[i] == '{' {
        let j = find_close_from(t, i + 1);
        if j >= t.len() {
            t.subrange(i, t.len() as int)
        } else {
            stripped_from(t, j + 1)
        }
    } else {
        seq![t[i]] + stripped_from(t, i + 1)
    }
}

#[via_fn]
proof fn stripped_from_dec(t: Seq<char>, i: int) {
    if 0 <= i < t.len() && t[i] == '{' {
        lemma_find_close_from(t, i + 1);
    }
}

/// The placeholder names of a whole template.
pub open spec fn placeholders_of(t: Seq<char>) -> Seq<Seq<char>> {
    placeholders_from(t, 0)
}

/// The normalized form of a whole template.
pub open spec fn normalized_of(t: Seq<char>) -> Seq<char> {
    normalized_from(t, 0)
}

/// A whole template with every placeholder span removed.
pub open spec fn stripped_of(t: Seq<char>) -> Seq<char> {
    stripped_from(t, 0)
}

/// How many positional markers `{}` a normalized template holds.
pub open spec fn marker_count(s: Seq<char>) -> nat
    decreases s.len(),
{
    if s.len() == 0 {
        0
    } else if s.len() >= 2 && s[0] == '{' && s[1] == '}' {
        1 + marker_count(s.skip(2))
    } else {
        marker_count(s.skip(1))
    }
}

/// Positional substitution: each marker `{}` consumes the next argument;
/// all other characters are kept verbatim.  A marker beyond the last
/// argument is kept verbatim.
pub open spec fn render_chars(s: Seq<char>, args: Seq<Seq<char>>) -> Seq<char>
    decreases s.len(),
{
    if s.len() == 0 {
        Seq::empty()
    } else if s.len() >= 2 && s[0] == '{' && s[1] == '}' && args.len() > 0 {
        args[0] + render_chars(s.skip(2), args.skip(1))
    } else {
        seq![s[0]] + render_chars(s.skip(1), args)
    }
}

/// A sequence of `k` empty argument strings.
pub open spec fn empty_args(k: nat) -> Seq<Seq<char>> {
    Seq::new(k, |i: int| Seq::<char>::empty())
}

proof fn lemma_find_close_from_at(t: Seq<char>, i: int, j: int)
    requires
        0 <= i <= j <= t.len(),
        forall|m: int| i <= m < j ==> t[m] != '}',
        j == t.len() || t[j] == '}',
    ensures
        find_close_from(t, i) == j,
    decreases j - i,
{
    if i < j {
        lemma_find_close_from_at(t, i + 1, j);
    }
}

fn scan_close(t: &str, start: usize, n: usize) -> (r: usize)
    requires
        n == t@.len(),
        start <= n,
    ensures
        r as int == find_close_from(t@, start as int),
{
    let mut j: usize = start;
    while j < n
        invariant
            start <= j <= n,
            n == t@.len(),
            forall|m: int| start <= m < j ==> t@[m] != '}',
        decreases n - j,
    {
        if t.get_char(j) == '}' {
            proof {
                lemma_find_close_from_at(t@, start as int, j as int);
            }
            return j;
        }
        j = j + 1;
    }
    proof {
        lemma_find_close_from_at(t@, start as int, n as int);
    }
    n
}

/// Parses a topic template: returns the normalized template, in which
/// each `{name}` span is replaced by the positional marker `{}`, and the
/// placeholder names in first-occurrence order.
pub fn parse(template: &str) -> (r: (String, Vec<String>))
    ensures
        r.0@ == normalized_of(template@),
        r.1.deep_view() == placeholders_of(template@),
{
    let n: usize = template.unicode_len();
    let mut out = String::new();
    let mut names: Vec<String> = Vec::new();
    let mut i: usize = 0;
    while i < n
        invariant
            i <= n,
            n == template@.len(),
            normalized_of(template@) == out@ + normalized_from(template@, i as int),
            placeholders_of(template@) == names.deep_view() + placeholders_from(
                template@,
                i as int,
            ),
        decreases n - i,
    {
        let ghost old_out = out@;
        let ghost old_names = names.deep_view();
        let ghost t = template@;
        let ghost i0 = i as int;
        let c = template.get_char(i);
        if c == '{' {
            let j = scan_close(template, i + 1, n);
            proof {
                lemma_find_close_from(t, i0 + 1);
            }
            if j < n {
                let name = String::from_str(template.substring_char(i + 1, j));
                names.push(name);
                proof {
                    reveal_strlit("{}");
                    assert("{}"@ == seq!['{', '}']);
                    assert(names.deep_view() =~= old_names.push(t.subrange(i0 + 1, j as int)));
                    assert(old_names.push(t.subrange(i0 + 1, j as int)) =~= old_names + seq![
                        t.subrange(i0 + 1, j as int),
                    ]);
                }
                out.append("{}");
                i = j + 1;
                proof {
                    assert(normalized_from(t, i0) == seq!['{', '}'] + normalized_from(t, i as int));
                    assert(old_out + (seq!['{', '}'] + normalized_from(t, i as int)) =~= (old_out
                        + seq!['{', '}']) + normalized_from(t, i as int));
                    assert(placeholders_from(t, i0) == seq![t.subrange(i0 + 1, j as int)]
                        + placeholders_from(t, i as int));
                    assert(old_names + (seq![t.subrange(i0 + 1, j as int)] + placeholders_from(
                        t,
                        i as int,
                    )) =~= (old_names + seq![t.subrange(i0 + 1, j as int)]) + placeholders_from(
                        t,
                        i as int,
                    ));
                }
            } else {
                let rest = template.substring_char(i, n);
                out.append(rest);
                i = n;
                proof {
                    assert(normalized_from(t, i0) == t.subrange(i0, n as int));
                    assert(old_out + (t.subrange(i0, n as int) + normalized_from(t, n as int))
                        =~= (old_out + t.subrange(i0, n as int)) + normalized_from(t, n as int));
                    assert(old_out + t.subrange(i0, n as int) + normalized_from(t, i as int)
                        =~= old_out + t.subrange(i0, n as int));
                    assert(placeholders_from(t, i0) =~= Seq::<Seq<char>>::empty()
                        + placeholders_from(t, i0));
                    assert(old_names + placeholders_from(t, i0) =~= names.deep_view()
                        + placeholders_from(t, i as int));
                }
            }
        } else {
            out.append(template.substring_char(i, i + 1));
            i = i + 1;
            proof {
                assert(t.subrange(i0, i0 + 1) =~= seq![t[i0]]);
                assert(normalized_from(t, i0) == seq![t[i0]] + normalized_from(t, i as int));
                assert(old_out + (seq![t[i0]] + normalized_from(t, i as int)) =~= (old_out + seq![
                    t[i0],
                ]) + normalized_from(t, i as int));
            }
        }
    }
    proof {
        assert(out@ + normalized_from(template@, n as int) =~= out@);
        assert(names.deep_view() + placeholders_from(template@, n as int) =~= names.deep_view());
    }
    (out, names)
}

/// Extracts the placeholder names of a topic template in left-to-right
/// order.
pub fn extract_substrings(s: &str) -> (r: Vec<String>)
    ensures
        r.deep_view() == placeholders_of(s@),
{
    let (_normalized, names) = parse(s);
    names
}

/// Replaces each placeholder span of a topic template by the positional
/// marker `{}`.  The list handed in must be the placeholder list that
/// `extract_substrings` returns for the same template; the normalized
/// form depends on the template alone and is recomputed by the same scan.
#[allow(unused_variables)]
pub fn remove_substrings(s: &str, substrings: &Vec<String>) -> (r: String)
    requires
        substrings.deep_view() == placeholders_of(s@),
    ensures
        r@ == normalized_of(s@),
{
    let (normalized, _names) = parse(s);
    normalized
}

/// Renders a normalized template by substituting the arguments
/// positionally, one per `{}` marker.
pub fn render(normalized: &str, args: &Vec<String>) -> (r: String)
    requires
        marker_count(normalized@) == args.len(),
    ensures
        r@ == render_chars(normalized@, args.deep_view()),
{
    let n: usize = normalized.unicode_len();
    let mut out = String::new();
    let mut i: usize = 0;
    let mut k: usize = 0;
    proof {
        assert(normalized@.skip(0) =~= normalized@);
        assert(args.deep_view().skip(0) =~= args.deep_view());
        assert(out@ + render_chars(normalized@, args.deep_view()) =~= render_chars(
            normalized@,
            args.deep_view(),
        ));
    }
    while i < n
        invariant
            i <= n,
            k <= args.len(),
            n == normalized@.len(),
            args.deep_view().len() == args.len(),
            marker_count(normalized@.skip(i as int)) == args.len() - k,
            render_chars(normalized@, args.deep_view()) == out@ + render_chars(
                normalized@.skip(i as int),
                args.deep_view().skip(k as int),
            ),
        decreases n - i,
    {
        let ghost s = normalized@;
        let ghost a = args.deep_view();
        let ghost i0 = i as int;
        let ghost k0 = k as int;
        let ghost old_out = out@;
        proof {
            assert(s.skip(i0) =~= seq![s[i0]] + s.skip(i0 + 1));
            assert(s.skip(i0).skip(1) =~= s.skip(i0 + 1));
            if i0 + 1 < n {
                assert(s.skip(i0).skip(2) =~= s.skip(i0 + 2));
            }
            assert(a.skip(k0).len() == a.len() - k0);
        }
        let c = normalized.get_char(i);
        let is_marker: bool = c == '{' && i + 1 < n && normalized.get_char(i + 1) == '}';
        if is_marker {
            proof {
                assert(s.skip(i0).len() >= 2 && s.skip(i0)[0] == '{' && s.skip(i0)[1] == '}');
                assert(marker_count(s.skip(i0)) == 1 + marker_count(s.skip(i0 + 2)));
                assert(a.skip(k0)[0] == a[k0]);
                assert(a.skip(k0).skip(1) =~= a.skip(k0 + 1));
                assert(render_chars(s.skip(i0), a.skip(k0)) == a[k0] + render_chars(
                    s.skip(i0 + 2),
                    a.skip(k0 + 1),
                ));
            }
            let arg: &String = &args[k];
            out.append(arg.as_str());
            i = i + 2;
            k = k + 1;
            proof {
                assert(old_out + (a[k0] + render_chars(s.skip(i0 + 2), a.skip(k0 + 1))) =~= (
                old_out + a[k0]) + render_chars(s.skip(i0 + 2), a.skip(k0 + 1)));
            }
        } else {
            proof {
                assert(!(s.skip(i0).len() >= 2 && s.skip(i0)[0] == '{' && s.skip(i0)[1] == '}'
                    && a.skip(k0).len() > 0));
                assert(render_chars(s.skip(i0), a.skip(k0)) == seq![s[i0]] + render_chars(
                    s.skip(i0 + 1),
                    a.skip(k0),
                ));
                assert(marker_count(s.skip(i0)) == marker_count(s.skip(i0 + 1)));
            }
            out.append(normalized.substring_char(i, i + 1));
            i = i + 1;
            proof {
                assert(s.subrange(i0, i0 + 1) =~= seq![s[i0]]);
                assert(old_out + (seq![s[i0]] + render_chars(s.skip(i0 + 1), a.skip(k0))) =~= (
                old_out + seq![s[i0]]) + render_chars(s.skip(i0 + 1), a.skip(k0)));
            }
        }
    }
    proof {
        assert(normalized@.skip(n as int) =~= Seq::<char>::empty());
        assert(out@ + render_chars(Seq::<char>::empty(), args.deep_view().skip(k as int))
            =~= out@);
    }
    out
}

proof fn lemma_marker_count_no_close(s: Seq<char>)
    requires
        forall|m: int| 0 <= m < s.len() ==> s[m] != '}',
    ensures
        marker_count(s) == 0,
    decreases s.len(),
{
    if s.len() > 0 {
        assert(forall|m: int| 0 <= m < s.skip(1).len() ==> s.skip(1)[m] != '}');
        lemma_marker_count_no_close(s.skip(1));
        if s.len() >= 2 {
            assert(s[1] != '}');
        }
    }
}

proof fn lemma_render_no_args(s: Seq<char>)
    ensures
        render_chars(s, Seq::<Seq<char>>::empty()) == s,
    decreases s.len(),
{
    if s.len() > 0 {
        lemma_render_no_args(s.skip(1));
        assert(seq![s[0]] + s.skip(1) =~= s);
    }
}

proof fn lemma_markers_from(t: Seq<char>, i: int)
    ensures
        marker_count(normalized_from(t, i)) == placeholders_from(t, i).len(),
    decreases t.len() - i,
{
    if 0 <= i < t.len() {
        if t[i] == '{' {
            lemma_find_close_from(t, i + 1);
            let j = find_close_from(t, i + 1);
            if j >= t.len() {
                let tail = t.subrange(i, t.len() as int);
                assert(forall|m: int| 0 <= m < tail.len() ==> tail[m] != '}');
                lemma_marker_count_no_close(tail);
            } else {
                lemma_markers_from(t, j + 1);
                let rest = normalized_from(t, j + 1);
                let whole = seq!['{', '}'] + rest;
                assert(whole.skip(2) =~= rest);
                assert(marker_count(whole) == 1 + marker_count(rest));
            }
        } else {
            lemma_markers_from(t, i + 1);
            let rest = normalized_from(t, i + 1);
            let whole = seq![t[i]] + rest;
            assert(whole.skip(1) =~= rest);
            if whole.len() >= 2 && whole[0] == '{' && whole[1] == '}' {
                assert(false);
            }
            assert(marker_count(whole) == marker_count(rest));
        }
    }
}

proof fn lemma_render_empty_from(t: Seq<char>, i: int)
    ensures
        render_chars(normalized_from(t, i), empty_args(placeholders_from(t, i).len()))
            == stripped_from(t, i),
    decreases t.len() - i,
{
    let k = placeholders_from(t, i).len();
    if i < 0 || i >= t.len() {
        assert(empty_args(0) =~= Seq::<Seq<char>>::empty());
    } else if t[i] == '{' {
        lemma_find_close_from(t, i + 1);
        let j = find_close_from(t, i + 1);
        if j >= t.len() {
            let tail = t.subrange(i, t.len() as int);
            assert(empty_args(0) =~= Seq::<Seq<char>>::empty());
            lemma_render_no_args(tail);
        } else {
            lemma_render_empty_from(t, j + 1);
            let rest = normalized_from(t, j + 1);
            let krest = placeholders_from(t, j + 1).len();
            let whole = seq!['{', '}'] + rest;
            assert(k == krest + 1);
            assert(whole.skip(2) =~= rest);
            assert(empty_args(k).len() == k);
            assert(empty_args(k)[0] =~= Seq::<char>::empty());
            assert(empty_args(k).skip(1) =~= empty_args(krest));
            assert(render_chars(whole, empty_args(k)) == empty_args(k)[0] + render_chars(
                rest,
                empty_args(krest),
            ));
            assert(Seq::<char>::empty() + stripped_from(t, j + 1) =~= stripped_from(t, j + 1));
        }
    } else {
        lemma_render_empty_from(t, i + 1);
        let rest = normalized_from(t, i + 1);
        let whole = seq![t[i]] + rest;
        assert(whole.skip(1) =~= rest);
        if whole.len() >= 2 && whole[0] == '{' && whole[1] == '}' {
            assert(false);
        }
        assert(render_chars(whole, empty_args(k)) == seq![t[i]] + render_chars(
            rest,
            empty_args(k),
        ));
    }
}

/// A template with `k` placeholder occurrences normalizes to a template
/// with `k` positional markers, and substituting `k` empty argument
/// strings into that normalized template yields the original template
/// with every placeholder span removed.
pub proof fn lemma_parse_substitution(t: Seq<char>)
    ensures
        marker_count(normalized_of(t)) == placeholders_of(t).len(),
        render_chars(normalized_of(t), empty_args(placeholders_of(t).len())) == stripped_of(t),
{
    lemma_markers_from(t, 0);
    lemma_render_empty_from(t, 0);
}

} // verus!
