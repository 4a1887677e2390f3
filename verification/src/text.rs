//! Character-level text handling: trimming, ASCII case folding, identifier
//! checks and the splitting of saved account name lists.
use vstd::prelude::*;

verus! {

// ---------------------------------------------------------------------------
// Specifications
// ---------------------------------------------------------------------------

/// The Unicode `White_Space` property, which `str::trim` and
/// `char::is_whitespace` go by.
pub open spec fn is_white_space(c: char) -> bool {
    ||| ('\u{9}' <= c && c <= '\u{d}')
    ||| c == ' '
    ||| c == '\u{85}'
    ||| c == '\u{a0}'
    ||| c == '\u{1680}'
    ||| ('\u{2000}' <= c && c <= '\u{200a}')
    ||| c == '\u{2028}'
    ||| c == '\u{2029}'
    ||| c == '\u{202f}'
    ||| c == '\u{205f}'
    ||| c == '\u{3000}'
}

/// The first index at or after `i` that does not hold white space.
pub open spec fn trim_start_index(s: Seq<char>, i: int) -> int
    decreases s.len() - i,
{
    if 0 <= i < s.len() && is_white_space(s[i]) {
        trim_start_index(s, i + 1)
    } else {
        i
    }
}

/// Walking back from `j` towards `lo`, the end of the last character that is
/// not white space.
pub open spec fn trim_end_index(s: Seq<char>, lo: int, j: int) -> int
    decreases j - lo,
{
    if lo < j && j <= s.len() && is_white_space(s[j - 1]) {
        trim_end_index(s, lo, j - 1)
    } else {
        j
    }
}

/// `s` without its leading and trailing white space.
pub open spec fn trimmed(s: Seq<char>) -> Seq<char> {
    let a = trim_start_index(s, 0);
    s.subrange(a, trim_end_index(s, a, s.len() as int))
}

/// A text is blank when nothing but white space is left after trimming.
pub open spec fn is_blank(s: Seq<char>) -> bool {
    trimmed(s).len() == 0
}

/// ASCII upper-case letters map to their lower-case forms; every other
/// character stays as it is.
pub open spec fn ascii_lower(c: char) -> char {
    if 'A' <= c && c <= 'Z' {
        ((c as u8) + 32) as char
    } else {
        c
    }
}

pub open spec fn lowered(s: Seq<char>) -> Seq<char> {
    Seq::new(s.len(), |i: int| ascii_lower(s[i]))
}

/// Two texts that agree once ASCII letters are folded to lower case.
pub open spec fn eq_ignoring_ascii_case(a: Seq<char>, b: Seq<char>) -> bool {
    lowered(a) == lowered(b)
}

pub open spec fn is_ascii_alphanumeric(c: char) -> bool {
    ('a' <= c && c <= 'z') || ('A' <= c && c <= 'Z') || ('0' <= c && c <= '9')
}

pub open spec fn is_safe_id_char(c: char) -> bool {
    is_ascii_alphanumeric(c) || c == '-' || c == '_'
}

/// A non-empty identifier made of ASCII letters, digits, `-` and `_`.
pub open spec fn safe_id(s: Seq<char>) -> bool {
    s.len() > 0 && forall|i: int| 0 <= i < s.len() ==> #[trigger] is_safe_id_char(s[i])
}

/// The characters that separate saved account names.
pub open spec fn is_name_separator(c: char) -> bool {
    c == ',' || c == ';' || c == '\n' || c == '\r' || c == '\t'
}

/// The fields of `s` between separators: `k` separators give `k + 1`
/// fields, empty ones included.
pub open spec fn split_fields(s: Seq<char>) -> Seq<Seq<char>>
    decreases s.len(),
{
    if s.len() == 0 {
        seq![Seq::<char>::empty()]
    } else {
        let prev = split_fields(s.drop_last());
        if is_name_separator(s.last()) {
            prev.push(Seq::<char>::empty())
        } else {
            prev.update(prev.len() - 1, prev.last().push(s.last()))
        }
    }
}

/// The trimmed fields that are not blank, in order.
pub open spec fn nonblank_trimmed(fields: Seq<Seq<char>>) -> Seq<Seq<char>>
    decreases fields.len(),
{
    if fields.len() == 0 {
        Seq::<Seq<char>>::empty()
    } else {
        let rest = nonblank_trimmed(fields.drop_last());
        let t = trimmed(fields.last());
        if t.len() > 0 {
            rest.push(t)
        } else {
            rest
        }
    }
}

/// The account names held in a saved-names text.
pub open spec fn account_names(s: Seq<char>) -> Seq<Seq<char>> {
    nonblank_trimmed(split_fields(s))
}

/// The key by which account names are compared: trimmed and folded to
/// ASCII lower case.
pub open spec fn account_name_key(s: Seq<char>) -> Seq<char> {
    lowered(trimmed(s))
}

/// What a list of strings holds, as character sequences.
pub open spec fn string_views(v: Seq<String>) -> Seq<Seq<char>> {
    Seq::new(v.len(), |i: int| v[i]@)
}

/// Whether `s` holds a character that separates saved account names.
pub open spec fn has_separator(s: Seq<char>) -> bool {
    exists|k: int| 0 <= k < s.len() && is_name_separator(#[trigger] s[k])
}

/// The names written one after the other, a comma between two of them.
pub open spec fn joined_names(names: Seq<Seq<char>>) -> Seq<char>
    decreases names.len(),
{
    if names.len() == 0 {
        Seq::<char>::empty()
    } else if names.len() == 1 {
        names[0]
    } else {
        joined_names(names.drop_last()) + seq![','] + names.last()
    }
}

/// `spans` places each of `names` in `text`, one after the other: the `i`-th
/// span is where the `i`-th name stands, and it ends before the next one
/// starts.
pub open spec fn spans_in_order(
    spans: Seq<(int, int)>,
    names: Seq<Seq<char>>,
    text: Seq<char>,
) -> bool {
    &&& spans.len() == names.len()
    &&& forall|i: int|
        0 <= i < spans.len() ==> {
            &&& 0 <= (#[trigger] spans[i]).0 <= spans[i].1 <= text.len()
            &&& text.subrange(spans[i].0, spans[i].1) == names[i]
        }
    &&& forall|i: int, j: int| 0 <= i < j < spans.len() ==> #[trigger] spans[i].1 <= #[trigger] spans[j].0
}

/// The names stand in `text` in this order.
pub open spec fn occur_in_order(names: Seq<Seq<char>>, text: Seq<char>) -> bool {
    exists|spans: Seq<(int, int)>| spans_in_order(spans, names, text)
}

/// Where each field of [`split_fields`] starts and ends in `s`.
pub open spec fn field_bounds(s: Seq<char>) -> Seq<(int, int)>
    decreases s.len(),
{
    if s.len() == 0 {
        seq![(0int, 0int)]
    } else {
        let prev = field_bounds(s.drop_last());
        if is_name_separator(s.last()) {
            prev.push((s.len() as int, s.len() as int))
        } else {
            prev.update(prev.len() - 1, (prev.last().0, s.len() as int))
        }
    }
}

/// Where the trimmed text of field `f`, which stands at `b`, stands.
pub open spec fn trimmed_span(f: Seq<char>, b: (int, int)) -> (int, int) {
    let a = trim_start_index(f, 0);
    (b.0 + a, b.0 + trim_end_index(f, a, f.len() as int))
}

/// Where the names that [`nonblank_trimmed`] keeps of `fields` stand, the
/// fields standing at `bounds`.
pub open spec fn nonblank_spans(fields: Seq<Seq<char>>, bounds: Seq<(int, int)>) -> Seq<(int, int)>
    decreases fields.len(),
{
    if fields.len() == 0 || bounds.len() == 0 {
        Seq::<(int, int)>::empty()
    } else {
        let rest = nonblank_spans(fields.drop_last(), bounds.drop_last());
        if trimmed(fields.last()).len() > 0 {
            rest.push(trimmed_span(fields.last(), bounds.last()))
        } else {
            rest
        }
    }
}

// ---------------------------------------------------------------------------
// Lemmas
// ---------------------------------------------------------------------------

pub proof fn lemma_string_views_push(v: Seq<String>, s: String)
    ensures
        string_views(v.push(s)) == string_views(v).push(s@),
{
    assert(string_views(v.push(s)) =~= string_views(v).push(s@));
}

pub proof fn lemma_trim_start_index(s: Seq<char>, i: int)
    requires
        0 <= i <= s.len(),
    ensures
        i <= trim_start_index(s, i) <= s.len(),
        forall|k: int| i <= k < trim_start_index(s, i) ==> is_white_space(#[trigger] s[k]),
        trim_start_index(s, i) < s.len() ==> !is_white_space(s[trim_start_index(s, i)]),
    decreases s.len() - i,
{
    if i < s.len() && is_white_space(s[i]) {
        lemma_trim_start_index(s, i + 1);
    }
}

pub proof fn lemma_trim_end_index(s: Seq<char>, lo: int, j: int)
    requires
        0 <= lo <= j <= s.len(),
    ensures
        lo <= trim_end_index(s, lo, j) <= j,
        forall|k: int| trim_end_index(s, lo, j) <= k < j ==> is_white_space(#[trigger] s[k]),
        trim_end_index(s, lo, j) > lo ==> !is_white_space(s[trim_end_index(s, lo, j) - 1]),
    decreases j - lo,
{
    if lo < j && is_white_space(s[j - 1]) {
        lemma_trim_end_index(s, lo, j - 1);
    }
}

/// A trimmed text neither starts nor ends with white space; it is empty
/// exactly when the text was all white space.
pub proof fn lemma_trimmed(s: Seq<char>)
    ensures
        trimmed(s).len() <= s.len(),
        trimmed(s).len() > 0 ==> !is_white_space(trimmed(s)[0]),
        trimmed(s).len() > 0 ==> !is_white_space(trimmed(s).last()),
        trimmed(s).len() == 0 <==> forall|k: int| 0 <= k < s.len() ==> is_white_space(#[trigger] s[k]),
{
    let a = trim_start_index(s, 0);
    lemma_trim_start_index(s, 0);
    lemma_trim_end_index(s, a, s.len() as int);
    let b = trim_end_index(s, a, s.len() as int);
    if b > a {
        assert(trimmed(s)[0] == s[a]);
        assert(trimmed(s).last() == s[b - 1]);
        assert(!is_white_space(s[a]));
    } else {
        assert forall|k: int| 0 <= k < s.len() implies is_white_space(#[trigger] s[k]) by {
            if k < a {
            } else {
            }
        }
    }
}

/// Text without white space at either end is left as it is by trimming.
pub proof fn lemma_trimmed_unchanged(t: Seq<char>)
    requires
        t.len() > 0 ==> !is_white_space(t[0]) && !is_white_space(t.last()),
    ensures
        trimmed(t) == t,
{
    assert(trim_start_index(t, 0) == 0);
    assert(trim_end_index(t, 0, t.len() as int) == t.len());
    assert(t.subrange(0, t.len() as int) =~= t);
}

/// Trimming twice is trimming once.
pub proof fn lemma_trimmed_idempotent(s: Seq<char>)
    ensures
        trimmed(trimmed(s)) == trimmed(s),
{
    lemma_trimmed(s);
    lemma_trimmed_unchanged(trimmed(s));
}

pub proof fn lemma_split_fields_nonempty(s: Seq<char>)
    ensures
        split_fields(s).len() >= 1,
    decreases s.len(),
{
    if s.len() > 0 {
        lemma_split_fields_nonempty(s.drop_last());
    }
}

/// Every account name is non-empty and trimmed.
pub proof fn lemma_nonblank_trimmed(fields: Seq<Seq<char>>)
    ensures
        forall|i: int|
            0 <= i < nonblank_trimmed(fields).len() ==> {
                &&& (#[trigger] nonblank_trimmed(fields)[i]).len() > 0
                &&& trimmed(nonblank_trimmed(fields)[i]) == nonblank_trimmed(fields)[i]
            },
    decreases fields.len(),
{
    if fields.len() > 0 {
        lemma_nonblank_trimmed(fields.drop_last());
        lemma_trimmed_idempotent(fields.last());
        let rest = nonblank_trimmed(fields.drop_last());
        let t = trimmed(fields.last());
        if t.len() > 0 {
            assert forall|i: int| 0 <= i < rest.push(t).len() implies {
                &&& (#[trigger] rest.push(t)[i]).len() > 0
                &&& trimmed(rest.push(t)[i]) == rest.push(t)[i]
            } by {
                if i < rest.len() {
                    assert(rest.push(t)[i] == rest[i]);
                }
            }
        }
    }
}

/// Trimming keeps a stretch of the text: the part between the two trim
/// indices.
pub proof fn lemma_trimmed_span(f: Seq<char>)
    ensures
        ({
            let a = trim_start_index(f, 0);
            let b = trim_end_index(f, a, f.len() as int);
            &&& 0 <= a <= b <= f.len()
            &&& trimmed(f) == f.subrange(a, b)
        }),
{
    lemma_trim_start_index(f, 0);
    let a = trim_start_index(f, 0);
    lemma_trim_end_index(f, a, f.len() as int);
}

/// Each field of `s` stands at its bounds, the fields come one after the
/// other with a separator between two of them, and no field holds a
/// separator.
pub proof fn lemma_field_bounds(s: Seq<char>)
    ensures
        field_bounds(s).len() == split_fields(s).len(),
        field_bounds(s).len() >= 1,
        field_bounds(s).last().1 == s.len(),
        forall|i: int|
            0 <= i < field_bounds(s).len() ==> {
                &&& 0 <= (#[trigger] field_bounds(s)[i]).0 <= field_bounds(s)[i].1 <= s.len()
                &&& split_fields(s)[i] == s.subrange(field_bounds(s)[i].0, field_bounds(s)[i].1)
            },
        forall|i: int, j: int|
            0 <= i < j < field_bounds(s).len() ==> #[trigger] field_bounds(s)[i].1
                < #[trigger] field_bounds(s)[j].0,
        forall|i: int| 0 <= i < split_fields(s).len() ==> !has_separator(#[trigger] split_fields(s)[i]),
    decreases s.len(),
{
    let fb = field_bounds(s);
    let sf = split_fields(s);
    if s.len() == 0 {
        assert(sf[0] =~= s.subrange(0, 0));
        assert(!has_separator(sf[0]));
    } else {
        let d = s.drop_last();
        let c = s.last();
        let n = s.len() as int;
        lemma_field_bounds(d);
        let p = field_bounds(d);
        let f = split_fields(d);
        assert forall|i: int| 0 <= i < p.len() implies s.subrange(
            (#[trigger] p[i]).0,
            p[i].1,
        ) == d.subrange(p[i].0, p[i].1) by {
            assert(s.subrange(p[i].0, p[i].1) =~= d.subrange(p[i].0, p[i].1));
        }
        if is_name_separator(c) {
            assert(sf == f.push(Seq::<char>::empty()));
            assert(fb == p.push((n, n)));
            assert forall|i: int| 0 <= i < fb.len() implies {
                &&& 0 <= (#[trigger] fb[i]).0 <= fb[i].1 <= s.len()
                &&& sf[i] == s.subrange(fb[i].0, fb[i].1)
            } by {
                if i == p.len() {
                    assert(s.subrange(n, n) =~= Seq::<char>::empty());
                }
            }
            assert forall|i: int| 0 <= i < sf.len() implies !has_separator(#[trigger] sf[i]) by {
                if i < f.len() {
                    assert(sf[i] == f[i]);
                }
            }
        } else {
            let l = p.len() - 1;
            assert(fb == p.update(l, (p[l].0, n)));
            assert(sf == f.update(l, f[l].push(c)));
            assert forall|i: int| 0 <= i < fb.len() implies {
                &&& 0 <= (#[trigger] fb[i]).0 <= fb[i].1 <= s.len()
                &&& sf[i] == s.subrange(fb[i].0, fb[i].1)
            } by {
                if i == l {
                    assert(s.subrange(p[l].0, n) =~= d.subrange(p[l].0, d.len() as int).push(c));
                }
            }
            assert forall|i: int| 0 <= i < sf.len() implies !has_separator(#[trigger] sf[i]) by {
                if i == l {
                    assert(!has_separator(f[l]));
                    assert forall|k: int| 0 <= k < sf[l].len() implies !is_name_separator(
                        #[trigger] sf[l][k],
                    ) by {
                        if k < f[l].len() {
                            assert(sf[l][k] == f[l][k]);
                        }
                    }
                } else {
                    assert(sf[i] == f[i]);
                }
            }
        }
    }
}

/// The names kept of the fields stand at [`nonblank_spans`], in order, each
/// within the bounds of the last field at the latest.
pub proof fn lemma_nonblank_spans(fields: Seq<Seq<char>>, bounds: Seq<(int, int)>, s: Seq<char>)
    requires
        fields.len() == bounds.len(),
        forall|i: int|
            0 <= i < bounds.len() ==> {
                &&& 0 <= (#[trigger] bounds[i]).0 <= bounds[i].1 <= s.len()
                &&& fields[i] == s.subrange(bounds[i].0, bounds[i].1)
            },
        forall|i: int, j: int| 0 <= i < j < bounds.len() ==> #[trigger] bounds[i].1 < #[trigger] bounds[j].0,
    ensures
        spans_in_order(nonblank_spans(fields, bounds), nonblank_trimmed(fields), s),
        forall|i: int|
            0 <= i < nonblank_spans(fields, bounds).len() ==> (#[trigger] nonblank_spans(fields, bounds)[i]).1
                <= bounds.last().1,
    decreases fields.len(),
{
    if fields.len() > 0 {
        let fd = fields.drop_last();
        let bd = bounds.drop_last();
        lemma_nonblank_spans(fd, bd, s);
        let rest = nonblank_spans(fd, bd);
        let names = nonblank_trimmed(fd);
        let f = fields.last();
        let b = bounds.last();
        let l = bounds.len() - 1;
        assert(b == bounds[l]);
        if trimmed(f).len() > 0 {
            lemma_trimmed_span(f);
            let t = trimmed_span(f, b);
            let a = trim_start_index(f, 0);
            let e = trim_end_index(f, a, f.len() as int);
            assert(s.subrange(t.0, t.1) =~= f.subrange(a, e));
            let all = rest.push(t);
            assert forall|i: int| 0 <= i < rest.len() implies (#[trigger] rest[i]).1 < b.0 by {
                if l > 0 {
                    assert(bd.last() == bounds[l - 1]);
                    assert(bounds[l - 1].1 < bounds[l].0);
                }
            }
            assert(spans_in_order(all, names.push(trimmed(f)), s)) by {
                assert forall|i: int, j: int| 0 <= i < j < all.len() implies #[trigger] all[i].1
                    <= #[trigger] all[j].0 by {
                    if j == rest.len() {
                        assert(all[i] == rest[i]);
                    } else {
                        assert(all[i] == rest[i] && all[j] == rest[j]);
                    }
                }
                assert forall|i: int| 0 <= i < all.len() implies {
                    &&& 0 <= (#[trigger] all[i]).0 <= all[i].1 <= s.len()
                    &&& s.subrange(all[i].0, all[i].1) == names.push(trimmed(f))[i]
                } by {
                    if i < rest.len() {
                        assert(all[i] == rest[i]);
                    }
                }
            }
            assert forall|i: int| 0 <= i < all.len() implies (#[trigger] all[i]).1 <= bounds.last().1 by {
                if i < rest.len() {
                    assert(all[i] == rest[i]);
                }
            }
        } else {
            assert forall|i: int| 0 <= i < rest.len() implies (#[trigger] rest[i]).1 <= bounds.last().1 by {
                if l > 0 {
                    assert(bd.last() == bounds[l - 1]);
                    assert(bounds[l - 1].1 < bounds[l].0);
                }
            }
        }
    }
}

/// The names kept of fields without separators hold no separator either.
pub proof fn lemma_nonblank_no_separator(fields: Seq<Seq<char>>)
    requires
        forall|i: int| 0 <= i < fields.len() ==> !has_separator(#[trigger] fields[i]),
    ensures
        forall|i: int|
            0 <= i < nonblank_trimmed(fields).len() ==> !has_separator(
                #[trigger] nonblank_trimmed(fields)[i],
            ),
    decreases fields.len(),
{
    if fields.len() > 0 {
        let fd = fields.drop_last();
        assert forall|i: int| 0 <= i < fd.len() implies !has_separator(#[trigger] fd[i]) by {
            assert(fd[i] == fields[i]);
        }
        lemma_nonblank_no_separator(fd);
        let f = fields.last();
        lemma_trimmed_span(f);
        let a = trim_start_index(f, 0);
        let t = trimmed(f);
        assert(!has_separator(fields[fields.len() - 1]));
        assert forall|k: int| 0 <= k < t.len() implies !is_name_separator(#[trigger] t[k]) by {
            assert(t[k] == f[a + k]);
        }
        let rest = nonblank_trimmed(fd);
        if t.len() > 0 {
            assert forall|i: int| 0 <= i < rest.push(t).len() implies !has_separator(
                #[trigger] rest.push(t)[i],
            ) by {
                if i < rest.len() {
                    assert(rest.push(t)[i] == rest[i]);
                }
            }
        }
    }
}

/// A text without separators is a single field.
pub proof fn lemma_split_without_separator(n: Seq<char>)
    requires
        !has_separator(n),
    ensures
        split_fields(n) == seq![n],
    decreases n.len(),
{
    if n.len() > 0 {
        let m = n.drop_last();
        assert(!has_separator(m)) by {
            if has_separator(m) {
                let k = choose|k: int| 0 <= k < m.len() && is_name_separator(#[trigger] m[k]);
                assert(n[k] == m[k]);
            }
        }
        lemma_split_without_separator(m);
        assert(!is_name_separator(n[n.len() - 1]));
        assert(m.push(n.last()) =~= n);
        assert(split_fields(n) =~= seq![n]);
    } else {
        assert(n =~= Seq::<char>::empty());
    }
}

/// A comma followed by a text without separators adds that text as one more
/// field.
pub proof fn lemma_split_after_comma(x: Seq<char>, n: Seq<char>)
    requires
        !has_separator(n),
    ensures
        split_fields(x + seq![','] + n) == split_fields(x).push(n),
    decreases n.len(),
{
    let w = x + seq![','] + n;
    if n.len() == 0 {
        assert(w.drop_last() =~= x);
        assert(w.last() == ',');
        assert(n =~= Seq::<char>::empty());
    } else {
        let m = n.drop_last();
        assert(!has_separator(m)) by {
            if has_separator(m) {
                let k = choose|k: int| 0 <= k < m.len() && is_name_separator(#[trigger] m[k]);
                assert(n[k] == m[k]);
            }
        }
        lemma_split_after_comma(x, m);
        assert(w.drop_last() =~= x + seq![','] + m);
        assert(w.last() == n[n.len() - 1]);
        assert(!is_name_separator(n[n.len() - 1]));
        assert(m.push(n.last()) =~= n);
        assert(split_fields(w) =~= split_fields(x).push(n));
    }
}

/// Names that are non-empty, trimmed and free of separators, joined with
/// commas, split back into the same names.
pub proof fn lemma_join_split_round_trip(names: Seq<Seq<char>>)
    requires
        forall|i: int|
            0 <= i < names.len() ==> {
                &&& (#[trigger] names[i]).len() > 0
                &&& trimmed(names[i]) == names[i]
                &&& !has_separator(names[i])
            },
    ensures
        account_names(joined_names(names)) == names,
    decreases names.len(),
{
    if names.len() == 0 {
        let e = Seq::<char>::empty();
        assert(split_fields(e) == seq![e]);
        let one = seq![e];
        assert(one.drop_last() =~= Seq::<Seq<char>>::empty());
        assert(one.last() == e);
        assert(trimmed(e).len() == 0);
        assert(nonblank_trimmed(one.drop_last()) =~= Seq::<Seq<char>>::empty());
        assert(nonblank_trimmed(one) =~= names);
    } else {
        let n = names.last();
        assert(n == names[names.len() - 1]);
        let d = names.drop_last();
        let fields = if names.len() == 1 {
            lemma_split_without_separator(n);
            assert(Seq::<Seq<char>>::empty().push(n) =~= seq![n]);
            Seq::<Seq<char>>::empty()
        } else {
            assert forall|i: int| 0 <= i < d.len() implies {
                &&& (#[trigger] d[i]).len() > 0
                &&& trimmed(d[i]) == d[i]
                &&& !has_separator(d[i])
            } by {
                assert(d[i] == names[i]);
            }
            lemma_join_split_round_trip(d);
            lemma_split_after_comma(joined_names(d), n);
            split_fields(joined_names(d))
        };
        assert(split_fields(joined_names(names)) == fields.push(n));
        assert(fields.push(n).drop_last() =~= fields);
        if names.len() == 1 {
            assert(nonblank_trimmed(fields) =~= d);
        }
        assert(nonblank_trimmed(fields) == d);
        assert(d.push(n) =~= names);
    }
}

/// What splitting a saved-names text gives: names that are non-empty,
/// trimmed and free of separators, standing in the text in the order in
/// which they come; and the names joined with commas split back into the
/// same names.
pub proof fn lemma_account_names_law(value: Seq<char>)
    ensures
        forall|i: int|
            0 <= i < account_names(value).len() ==> {
                &&& (#[trigger] account_names(value)[i]).len() > 0
                &&& trimmed(account_names(value)[i]) == account_names(value)[i]
                &&& !has_separator(account_names(value)[i])
            },
        occur_in_order(account_names(value), value),
        account_names(joined_names(account_names(value))) == account_names(value),
{
    let fields = split_fields(value);
    let names = account_names(value);
    lemma_field_bounds(value);
    lemma_nonblank_trimmed(fields);
    lemma_nonblank_no_separator(fields);
    lemma_nonblank_spans(fields, field_bounds(value), value);
    assert(spans_in_order(nonblank_spans(fields, field_bounds(value)), names, value));
    lemma_join_split_round_trip(names);
}

// ---------------------------------------------------------------------------
// Executable text handling
// ---------------------------------------------------------------------------

/// Appends one character to a string (`String::push`).
#[verifier::external_body]
fn push_char(s: &mut String, c: char)
    ensures
        final(s)@ == old(s)@.push(c),
{
    s.push(c);
}

/// The characters of `s`, in order.
pub fn chars_of(s: &str) -> (r: Vec<char>)
    ensures
        r@ == s@,
{
    let mut r: Vec<char> = Vec::new();
    for c in it: s.chars()
        invariant
            r@ == it.seq().take(it.index() as int),
    {
        r.push(c);
    }
    r
}

/// The string made of the characters `cs`, in order.
pub fn string_from_chars(cs: &Vec<char>) -> (r: String)
    ensures
        r@ == cs@,
{
    let mut r = String::new();
    let n = cs.len();
    for i in 0..n
        invariant
            n == cs@.len(),
            r@ == cs@.take(i as int),
    {
        push_char(&mut r, cs[i]);
        assert(cs@.take(i + 1) == cs@.take(i as int).push(cs@[i as int]));
    }
    assert(cs@.take(n as int) == cs@);
    r
}

/// Whether two strings hold the same characters.
pub fn same_text(a: &str, b: &str) -> (r: bool)
    ensures
        r == (a@ == b@),
{
    let x = chars_of(a);
    let y = chars_of(b);
    if x.len() != y.len() {
        return false;
    }
    let n = x.len();
    for i in 0..n
        invariant
            n == x@.len(),
            n == y@.len(),
            x@ == a@,
            y@ == b@,
            forall|k: int| 0 <= k < i ==> x@[k] == y@[k],
    {
        if x[i] != y[i] {
            return false;
        }
    }
    assert(x@ =~= y@);
    true
}

/// Whether `c` has the Unicode `White_Space` property.
pub fn is_whitespace(c: char) -> (r: bool)
    ensures
        r == is_white_space(c),
{
    ('\u{9}' <= c && c <= '\u{d}') || c == ' ' || c == '\u{85}' || c == '\u{a0}' || c
        == '\u{1680}' || ('\u{2000}' <= c && c <= '\u{200a}') || c == '\u{2028}' || c
        == '\u{2029}' || c == '\u{202f}' || c == '\u{205f}' || c == '\u{3000}'
}

/// `cs` without leading and trailing white space.
pub fn trim_chars(cs: &Vec<char>) -> (r: Vec<char>)
    ensures
        r@ == trimmed(cs@),
{
    let n = cs.len();
    let mut a: usize = 0;
    while a < n && is_whitespace(cs[a])
        invariant
            a <= n,
            n == cs@.len(),
            trim_start_index(cs@, a as int) == trim_start_index(cs@, 0),
        decreases n - a,
    {
        a = a + 1;
    }
    let mut b: usize = n;
    while b > a && is_whitespace(cs[b - 1])
        invariant
            a <= b <= n,
            n == cs@.len(),
            trim_end_index(cs@, a as int, b as int) == trim_end_index(cs@, a as int, n as int),
        decreases b,
    {
        b = b - 1;
    }
    let mut r: Vec<char> = Vec::new();
    for k in a..b
        invariant
            a <= b <= n,
            n == cs@.len(),
            r@ == cs@.subrange(a as int, k as int),
    {
        r.push(cs[k]);
    }
    r
}

/// `value` without leading and trailing white space.
pub fn trim_text(value: &str) -> (r: String)
    ensures
        r@ == trimmed(value@),
{
    string_from_chars(&trim_chars(&chars_of(value)))
}

/// Whether nothing but white space is in `value`.
pub fn is_blank_text(value: &str) -> (r: bool)
    ensures
        r == is_blank(value@),
{
    trim_chars(&chars_of(value)).len() == 0
}

pub fn ascii_lower_char(c: char) -> (r: char)
    ensures
        r == ascii_lower(c),
{
    if 'A' <= c && c <= 'Z' {
        ((c as u8) + 32) as char
    } else {
        c
    }
}

/// `cs` with ASCII letters folded to lower case.
pub fn lower_chars(cs: &Vec<char>) -> (r: Vec<char>)
    ensures
        r@ == lowered(cs@),
{
    let mut r: Vec<char> = Vec::new();
    let n = cs.len();
    for i in 0..n
        invariant
            n == cs@.len(),
            r@.len() == i,
            forall|k: int| 0 <= k < i ==> r@[k] == ascii_lower(cs@[k]),
    {
        r.push(ascii_lower_char(cs[i]));
    }
    assert(r@ =~= lowered(cs@));
    r
}

/// Whether `a` and `b` are equal once ASCII letters are folded to lower case.
pub fn eq_ignore_ascii_case(a: &str, b: &str) -> (r: bool)
    ensures
        r == eq_ignoring_ascii_case(a@, b@),
{
    let x = lower_chars(&chars_of(a));
    let y = lower_chars(&chars_of(b));
    if x.len() != y.len() {
        return false;
    }
    let n = x.len();
    for i in 0..n
        invariant
            n == x@.len(),
            n == y@.len(),
            x@ == lowered(a@),
            y@ == lowered(b@),
            forall|k: int| 0 <= k < i ==> x@[k] == y@[k],
    {
        if x[i] != y[i] {
            return false;
        }
    }
    assert(x@ =~= y@);
    true
}

/// A name as it is kept: trimmed.
pub fn normalize_name(value: &str) -> (r: String)
    ensures
        r@ == trimmed(value@),
{
    trim_text(value)
}

/// `value` trimmed and with ASCII letters folded to lower case.
pub fn trimmed_lowercase(value: &str) -> (r: String)
    ensures
        r@ == lowered(trimmed(value@)),
{
    string_from_chars(&lower_chars(&trim_chars(&chars_of(value))))
}

/// The key by which account names are matched: trimmed and folded to ASCII
/// lower case.
pub fn normalize_account_name(value: &str) -> (r: String)
    ensures
        r@ == account_name_key(value@),
{
    trimmed_lowercase(value)
}

/// Whether `value` can name an account directory: non-empty, and made of
/// ASCII letters, digits, `-` and `_` alone (so no path separator and no
/// dot can occur in it).
pub fn is_safe_id(value: &str) -> (r: bool)
    ensures
        r == safe_id(value@),
        r ==> !value@.contains('/') && !value@.contains('\\') && !value@.contains('.'),
{
    let cs = chars_of(value);
    if cs.len() == 0 {
        return false;
    }
    let n = cs.len();
    for i in 0..n
        invariant
            n == cs@.len(),
            cs@ == value@,
            forall|k: int| 0 <= k < i ==> #[trigger] is_safe_id_char(cs@[k]),
    {
        let c = cs[i];
        let ok = ('a' <= c && c <= 'z') || ('A' <= c && c <= 'Z') || ('0' <= c && c <= '9') || c
            == '-' || c == '_';
        if !ok {
            assert(!is_safe_id_char(cs@[i as int]));
            return false;
        }
    }
    proof {
        if value@.contains('/') {
            let k = choose|k: int| 0 <= k < value@.len() && value@[k] == '/';
            assert(is_safe_id_char(cs@[k]));
        }
        if value@.contains('\\') {
            let k = choose|k: int| 0 <= k < value@.len() && value@[k] == '\\';
            assert(is_safe_id_char(cs@[k]));
        }
        if value@.contains('.') {
            let k = choose|k: int| 0 <= k < value@.len() && value@[k] == '.';
            assert(is_safe_id_char(cs@[k]));
        }
    }
    true
}

pub fn is_separator(c: char) -> (r: bool)
    ensures
        r == is_name_separator(c),
{
    c == ',' || c == ';' || c == '\n' || c == '\r' || c == '\t'
}

/// The account names in a saved-names text: the text is cut at `,`, `;`,
/// newlines, carriage returns and tabs, each piece is trimmed, and blank
/// pieces are left out.
pub fn split_account_names(value: &str) -> (r: Vec<String>)
    ensures
        string_views(r@) == account_names(value@),
        forall|i: int|
            0 <= i < r@.len() ==> (#[trigger] r@[i])@.len() > 0 && trimmed(r@[i]@) == r@[i]@
                && !has_separator(r@[i]@),
        occur_in_order(string_views(r@), value@),
{
    let cs = chars_of(value);
    let n = cs.len();
    let mut out: Vec<String> = Vec::new();
    let mut cur: Vec<char> = Vec::new();
    let ghost mut done: Seq<Seq<char>> = Seq::empty();
    for i in 0..n
        invariant
            n == cs@.len(),
            split_fields(cs@.take(i as int)) == done.push(cur@),
            string_views(out@) == nonblank_trimmed(done),
    {
        let c = cs[i];
        let ghost prefix = cs@.take(i as int);
        assert(cs@.take(i + 1).drop_last() =~= prefix);
        assert(cs@.take(i + 1).last() == c);
        if is_separator(c) {
            let t = trim_chars(&cur);
            assert(done.push(cur@).drop_last() =~= done);
            assert(done.push(cur@).last() == cur@);
            if t.len() > 0 {
                let s = string_from_chars(&t);
                out.push(s);
                assert(string_views(out@) =~= nonblank_trimmed(done.push(cur@)));
            } else {
                assert(nonblank_trimmed(done.push(cur@)) == nonblank_trimmed(done));
            }
            proof {
                done = done.push(cur@);
            }
            cur = Vec::new();
            assert(split_fields(cs@.take(i + 1)) =~= done.push(cur@));
        } else {
            cur.push(c);
            proof {
                assert(split_fields(cs@.take(i + 1)) =~= done.push(cur@));
            }
        }
    }
    assert(cs@.take(n as int) =~= cs@);
    let t = trim_chars(&cur);
    assert(done.push(cur@).drop_last() =~= done);
    assert(done.push(cur@).last() == cur@);
    if t.len() > 0 {
        let s = string_from_chars(&t);
        out.push(s);
        assert(string_views(out@) =~= nonblank_trimmed(done.push(cur@)));
    }
    proof {
        lemma_account_names_law(value@);
        assert forall|i: int| 0 <= i < out@.len() implies (#[trigger] out@[i])@.len() > 0
            && trimmed(out@[i]@) == out@[i]@ && !has_separator(out@[i]@) by {
            assert(string_views(out@)[i] == out@[i]@);
        }
    }
    out
}

} // verus!
