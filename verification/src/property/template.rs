//! The template language of property values.
//!
//! A template is plain text with placeholders. A placeholder is `${`, then
//! its inside, which is not empty, then the `}` that matches: every `${` on the
//! way opens a placeholder of its own and every `}` closes the innermost one
//! that is open. The inside is either a key (`${key}`) or a key and a default,
//! parted at the first colon (`${key:default}`). A default is a template
//! itself. Placeholders are found from left to right and do not overlap.

use vstd::prelude::*;
use crate::error::Error;
use crate::error::Failure;
use crate::error::views;
use crate::text::extend_chars;
use crate::text::from_chars;
use crate::text::str_eq;
use crate::text::slice_to_string;
use crate::text::to_chars;

verus! {

/// Where one placeholder lies in a template: `start` is the index of its `$`,
/// `end` the index just behind its `}`.
#[derive(Clone, Copy, Debug, PartialEq, Eq, Structural)]
pub struct Span {
    pub start: usize,
    pub end: usize,
}

/// The index of the first `c` at or behind `from`, or the length of `t` where
/// there is none.
pub open spec fn first_at(t: Seq<char>, c: char, from: int) -> int
    decreases t.len() - from,
{
    if from < 0 || from >= t.len() {
        t.len() as int
    } else if t[from] == c {
        from
    } else {
        first_at(t, c, from + 1)
    }
}

/// The index of the `}` that closes the outermost of `depth` open
/// placeholders, looked for at or behind `from`; or the length of `t` where
/// there is none.
pub open spec fn close_of(t: Seq<char>, from: int, depth: nat) -> int
    decreases t.len() - from,
{
    if from < 0 || from >= t.len() || depth == 0 {
        t.len() as int
    } else if t[from] == '$' && from + 1 < t.len() && t[from + 1] == '{' {
        close_of(t, from + 2, depth + 1)
    } else if t[from] == '}' {
        if depth == 1 {
            from
        } else {
            close_of(t, from + 1, (depth - 1) as nat)
        }
    } else {
        close_of(t, from + 1, depth)
    }
}

/// The index of the `}` that matches a `${` whose inside begins at `from`, or
/// the length of `t` where there is none.
pub open spec fn close_at(t: Seq<char>, from: int) -> int {
    close_of(t, from, 1)
}

/// Whether a placeholder starts at index `i` of `t`.
pub open spec fn opens_at(t: Seq<char>, i: int) -> bool {
    &&& 0 <= i
    &&& i + 2 < t.len()
    &&& t[i] == '$'
    &&& t[i + 1] == '{'
    &&& t[i + 2] != '}'
    &&& close_at(t, i + 2) < t.len()
}

/// The placeholders of `t` that start at or behind `from`, as pairs of start
/// and end, from left to right.
pub open spec fn scan(t: Seq<char>, from: int) -> Seq<(int, int)>
    decreases t.len() - from,
{
    if from < 0 || from >= t.len() {
        Seq::empty()
    } else if opens_at(t, from) {
        proof {
            lemma_close_of(t, from + 2, 1);
        }
        let end = close_at(t, from + 2) + 1;
        seq![(from, end)] + scan(t, end)
    } else {
        scan(t, from + 1)
    }
}

/// The index of the first colon of `inner`, if it has one.
pub open spec fn colon_at(inner: Seq<char>) -> Option<int> {
    if first_at(inner, ':', 0) < inner.len() {
        Some(first_at(inner, ':', 0))
    } else {
        None
    }
}

/// The key of a placeholder with the inside `inner`: what stands before its
/// first colon, or all of it where it has none.
pub open spec fn key_of(inner: Seq<char>) -> Seq<char> {
    match colon_at(inner) {
        None => inner,
        Some(k) => inner.take(k),
    }
}

/// The default of a placeholder with the inside `inner`: what stands behind its
/// first colon, if it has one.
pub open spec fn default_of(inner: Seq<char>) -> Option<Seq<char>> {
    match colon_at(inner) {
        None => None,
        Some(k) => Some(inner.skip(k + 1)),
    }
}

/// What stands for a placeholder with the inside `inner` over the properties
/// `props`: the property's text; else the expansion of the default, which is a
/// template itself; else nothing, and `inner` is the error. A default that
/// cannot be expanded hands its own error on.
pub open spec fn resolve(inner: Seq<char>, props: Map<Seq<char>, Seq<char>>) -> Result<
    Seq<char>,
    Seq<char>,
>
    decreases inner.len(), 3nat, 0nat,
{
    if props.contains_key(key_of(inner)) {
        Ok(props[key_of(inner)])
    } else {
        match default_of(inner) {
            None => Err(inner),
            Some(default) => {
                proof {
                    lemma_first_at(inner, ':', 0);
                }
                expand(default, props)
            },
        }
    }
}

/// The template `t` from the index `from` on, with each of its placeholders
/// `spans` replaced, where it stands, by what it stands for. The first
/// placeholder, from left to right, that stands for nothing ends the expansion
/// with its error.
pub open spec fn pieces(
    t: Seq<char>,
    from: int,
    spans: Seq<(int, int)>,
    props: Map<Seq<char>, Seq<char>>,
) -> Result<Seq<char>, Seq<char>>
    decreases t.len(), 1nat, spans.len(),
{
    if spans.len() == 0 {
        Ok(t.skip(from))
    } else {
        let (start, end) = spans[0];
        if 0 <= from <= start && start + 4 <= end <= t.len() {
            match resolve(t.subrange(start + 2, end - 1), props) {
                Err(key) => Err(key),
                Ok(text) => joined(
                    t.subrange(from, start) + text,
                    pieces(t, end, spans.drop_first(), props),
                ),
            }
        } else {
            Ok(t.skip(from))
        }
    }
}

/// `head` before the text `tail`, where `tail` is one.
pub open spec fn joined(head: Seq<char>, tail: Result<Seq<char>, Seq<char>>) -> Result<
    Seq<char>,
    Seq<char>,
> {
    match tail {
        Ok(rest) => Ok(head + rest),
        Err(key) => Err(key),
    }
}

/// The expansion of the template `t` over the properties `props`: `t` with
/// each placeholder replaced by what it stands for, or the inside of the
/// first placeholder, at whatever depth, that has neither a value nor a
/// default. What a placeholder stands for is not looked through for
/// placeholders again.
pub open spec fn expand(t: Seq<char>, props: Map<Seq<char>, Seq<char>>) -> Result<
    Seq<char>,
    Seq<char>,
>
    decreases t.len(), 2nat, 0nat,
{
    pieces(t, 0, scan(t, 0), props)
}

/// The keys that the expansion of the template `t` may look up: the key of
/// each of its placeholders and, behind it, the keys of the placeholder's
/// default, from left to right.
pub open spec fn keys_in(t: Seq<char>) -> Seq<Seq<char>>
    decreases t.len(), 2nat, 0nat,
{
    keys_of_spans(t, scan(t, 0))
}

/// The keys that the placeholders `spans` of the template `t` may look up.
pub open spec fn keys_of_spans(t: Seq<char>, spans: Seq<(int, int)>) -> Seq<Seq<char>>
    decreases t.len(), 1nat, spans.len(),
{
    if spans.len() == 0 {
        Seq::empty()
    } else {
        let (start, end) = spans[0];
        if 0 <= start && start + 4 <= end <= t.len() {
            keys_of_inner(t.subrange(start + 2, end - 1)) + keys_of_spans(t, spans.drop_first())
        } else {
            Seq::empty()
        }
    }
}

/// The keys that a placeholder with the inside `inner` may look up: its own,
/// then those of its default.
pub open spec fn keys_of_inner(inner: Seq<char>) -> Seq<Seq<char>>
    decreases inner.len(), 3nat, 0nat,
{
    seq![key_of(inner)] + (match default_of(inner) {
        None => Seq::empty(),
        Some(default) => {
            proof {
                lemma_first_at(inner, ':', 0);
            }
            keys_in(default)
        },
    })
}

/// The text of a string that may be absent.
pub open spec fn text_of(found: Option<String>) -> Option<Seq<char>> {
    match found {
        Some(text) => Some(text@),
        None => None,
    }
}

/// The texts of a list of strings that may be absent.
pub open spec fn texts(found: Seq<Option<String>>) -> Seq<Option<Seq<char>>> {
    found.map_values(|f: Option<String>| text_of(f))
}

/// The position of the first `key` in `keys`, or the length of `keys` where it
/// holds none.
pub open spec fn table_at(keys: Seq<Seq<char>>, key: Seq<char>) -> int
    decreases keys.len(),
{
    if keys.len() == 0 {
        0
    } else if keys[0] == key {
        0
    } else {
        1 + table_at(keys.drop_first(), key)
    }
}

/// The properties that a table of looked-up keys holds: under each key what
/// was found at the key's first place, where something was found.
pub open spec fn table_props(keys: Seq<Seq<char>>, found: Seq<Option<Seq<char>>>) -> Map<
    Seq<char>,
    Seq<char>,
> {
    Map::new(
        |k: Seq<char>| table_at(keys, k) < keys.len() && table_at(keys, k) < found.len()
            && found[table_at(keys, k)] is Some,
        |k: Seq<char>| found[table_at(keys, k)]->0,
    )
}

/// Whether `found` is what the properties `props` hold under `key`.
pub open spec fn agrees_at(props: Map<Seq<char>, Seq<char>>, key: Seq<char>, found: Option<Seq<char>>) -> bool {
    match found {
        Some(text) => props.contains_key(key) && props[key] == text,
        None => !props.contains_key(key),
    }
}

/// Whether two sets of properties hold the same under `key`.
pub open spec fn same_at(a: Map<Seq<char>, Seq<char>>, b: Map<Seq<char>, Seq<char>>, key: Seq<char>) -> bool {
    a.contains_key(key) == b.contains_key(key) && (a.contains_key(key) ==> a[key] == b[key])
}

/// The spans of a vector of `Span`s as pairs of integers.
pub open spec fn pairs(spans: Seq<Span>) -> Seq<(int, int)> {
    spans.map_values(|s: Span| (s.start as int, s.end as int))
}

/// `first_at` is the least index at or behind `from` that holds `c`.
pub proof fn lemma_first_at(t: Seq<char>, c: char, from: int)
    requires
        0 <= from <= t.len(),
    ensures
        from <= first_at(t, c, from) <= t.len(),
        first_at(t, c, from) < t.len() ==> t[first_at(t, c, from)] == c,
        forall|j: int| from <= j < first_at(t, c, from) ==> t[j] != c,
    decreases t.len() - from,
{
    if from < t.len() && t[from] != c {
        lemma_first_at(t, c, from + 1);
    }
}

/// `close_of` lies at or behind `from`, and where it lies inside the text it
/// is the index of a `}`.
pub proof fn lemma_close_of(t: Seq<char>, from: int, depth: nat)
    requires
        0 <= from <= t.len(),
        depth >= 1,
    ensures
        from <= close_of(t, from, depth) <= t.len(),
        close_of(t, from, depth) < t.len() ==> t[close_of(t, from, depth)] == '}',
        from < t.len() && t[from] != '}' ==> from < close_of(t, from, depth),
    decreases t.len() - from,
{
    if from < t.len() {
        if t[from] == '$' && from + 1 < t.len() && t[from + 1] == '{' {
            lemma_close_of(t, from + 2, depth + 1);
        } else if t[from] == '}' {
            if depth > 1 {
                lemma_close_of(t, from + 1, (depth - 1) as nat);
            }
        } else {
            lemma_close_of(t, from + 1, depth);
        }
    }
}

/// Whether `span` lies inside `t` at or behind `from` and is at least four
/// characters long.
pub open spec fn span_fits(t: Seq<char>, from: int, span: (int, int)) -> bool {
    &&& from <= span.0
    &&& span.0 + 4 <= span.1 <= t.len()
}

/// Every placeholder lies inside the template and is at least four characters
/// long.
pub proof fn lemma_scan_spans(t: Seq<char>, from: int)
    requires
        0 <= from,
    ensures
        forall|k: int| 0 <= k < scan(t, from).len() ==> span_fits(t, from, #[trigger] scan(t, from)[k]),
    decreases t.len() - from,
{
    if from >= t.len() {
    } else if opens_at(t, from) {
        lemma_close_of(t, from + 2, 1);
        let end = close_at(t, from + 2) + 1;
        lemma_scan_spans(t, end);
        assert forall|k: int| 0 <= k < scan(t, from).len() implies span_fits(
            t,
            from,
            #[trigger] scan(t, from)[k],
        ) by {
            if k > 0 {
                assert(scan(t, from)[k] == scan(t, end)[k - 1]);
                assert(span_fits(t, end, scan(t, end)[k - 1]));
            } else {
                assert(scan(t, from)[0] == (from, end));
            }
        }
    } else {
        lemma_scan_spans(t, from + 1);
        assert forall|k: int| 0 <= k < scan(t, from).len() implies span_fits(
            t,
            from,
            #[trigger] scan(t, from)[k],
        ) by {
            assert(span_fits(t, from + 1, scan(t, from + 1)[k]));
        }
    }
}

/// The placeholders of a template follow one another: none begins before the
/// one before it has ended.
pub proof fn lemma_scan_ordered(t: Seq<char>, from: int)
    requires
        0 <= from,
    ensures
        forall|k: int|
            0 <= k && k + 1 < scan(t, from).len() ==> (#[trigger] scan(t, from)[k]).1 <= scan(
                t,
                from,
            )[k + 1].0,
    decreases t.len() - from,
{
    if from >= t.len() {
    } else if opens_at(t, from) {
        lemma_close_of(t, from + 2, 1);
        let end = close_at(t, from + 2) + 1;
        lemma_scan_ordered(t, end);
        lemma_scan_spans(t, end);
        assert forall|k: int| 0 <= k && k + 1 < scan(t, from).len() implies (#[trigger] scan(
            t,
            from,
        )[k]).1 <= scan(t, from)[k + 1].0 by {
            assert(scan(t, from)[k + 1] == scan(t, end)[k]);
            if k > 0 {
                assert(scan(t, from)[k] == scan(t, end)[k - 1]);
            } else {
                assert(scan(t, from)[0] == (from, end));
                assert(span_fits(t, end, scan(t, end)[0]));
            }
        }
    } else {
        lemma_scan_ordered(t, from + 1);
        assert forall|k: int| 0 <= k && k + 1 < scan(t, from).len() implies (#[trigger] scan(
            t,
            from,
        )[k]).1 <= scan(t, from)[k + 1].0 by {
            assert(scan(t, from + 1)[k].1 <= scan(t, from + 1)[k + 1].0);
        }
    }
}

/// The index of the first `c` in `t[from..to]`, or `to` where there is none.
pub fn find_char(t: &Vec<char>, c: char, from: usize, to: usize) -> (at: usize)
    requires
        from <= to <= t.len(),
    ensures
        at == first_at(t@.take(to as int), c, from as int),
        from <= at <= to,
{
    let ghost head = t@.take(to as int);
    let mut i: usize = from;
    while i < to && t[i] != c
        invariant
            from <= i <= to <= t.len(),
            head == t@.take(to as int),
            first_at(head, c, from as int) == first_at(head, c, i as int),
        decreases to - i,
    {
        i += 1;
    }
    i
}

/// The index of the `}` that matches a `${` whose inside begins at `from`, or
/// the length of `t` where there is none.
pub fn find_close(t: &Vec<char>, from: usize) -> (at: usize)
    requires
        from <= t.len(),
    ensures
        at == close_at(t@, from as int),
{
    let mut j: usize = from;
    let mut depth: usize = 1;
    while j < t.len()
        invariant
            from <= j <= t.len(),
            1 <= depth <= j - from + 1,
            close_of(t@, from as int, 1) == close_of(t@, j as int, depth as nat),
        decreases t.len() - j,
    {
        if t[j] == '$' && t.len() - j > 1 && t[j + 1] == '{' {
            depth += 1;
            j += 2;
        } else if t[j] == '}' {
            if depth == 1 {
                return j;
            }
            depth -= 1;
            j += 1;
        } else {
            j += 1;
        }
    }
    j
}

/// The placeholders of `t`, from left to right.
pub fn find_placeholders(t: &Vec<char>) -> (spans: Vec<Span>)
    ensures
        pairs(spans@) == scan(t@, 0),
{
    let mut spans: Vec<Span> = Vec::new();
    let mut i: usize = 0;
    while i < t.len()
        invariant
            i <= t.len(),
            pairs(spans@) + scan(t@, i as int) == scan(t@, 0),
        decreases t.len() - i,
    {
        let mut opened = false;
        if t.len() - i > 2 && t[i] == '$' && t[i + 1] == '{' && t[i + 2] != '}' {
            let close = find_close(t, i + 2);
            proof {
                lemma_close_of(t@, i + 2, 1);
            }
            if close < t.len() {
                opened = true;
                let ghost before = pairs(spans@);
                spans.push(Span { start: i, end: close + 1 });
                assert(pairs(spans@) == before + seq![(i as int, close + 1)]);
                assert(opens_at(t@, i as int));
                assert(before + (seq![(i as int, close + 1)] + scan(t@, close + 1)) == (before
                    + seq![(i as int, close + 1)]) + scan(t@, close + 1));
                i = close + 1;
            }
        }
        if !opened {
            assert(!opens_at(t@, i as int));
            i += 1;
        }
    }
    assert(scan(t@, i as int) == Seq::<(int, int)>::empty());
    assert(pairs(spans@) + Seq::<(int, int)>::empty() == pairs(spans@));
    spans
}

/// `first_at` on a part of a text is `first_at` on the text up to the part's
/// end, counted from the part's start.
pub proof fn lemma_first_at_part(t: Seq<char>, c: char, from: int, to: int, i: int)
    requires
        0 <= from <= i <= to <= t.len(),
    ensures
        first_at(t.subrange(from, to), c, i - from) == first_at(t.take(to), c, i) - from,
    decreases to - i,
{
    if i < to {
        assert(t.subrange(from, to)[i - from] == t.take(to)[i]);
        if t[i] != c {
            lemma_first_at_part(t, c, from, to, i + 1);
        }
    }
}

/// The index of the first colon of `t[from..to]`, counted from `from`.
pub fn find_colon(t: &Vec<char>, from: usize, to: usize) -> (at: Option<usize>)
    requires
        from <= to <= t.len(),
    ensures
        match colon_at(t@.subrange(from as int, to as int)) {
            Some(k) => at == Some(k as usize) && 0 <= k < to - from,
            None => at is None,
        },
{
    let i = find_char(t, ':', from, to);
    proof {
        lemma_first_at_part(t@, ':', from as int, to as int, from as int);
    }
    if i < to {
        Some(i - from)
    } else {
        None
    }
}

/// The key of the placeholder `span` of the template `t`.
pub fn placeholder_key(t: &Vec<char>, span: Span) -> (key: String)
    requires
        span.start + 4 <= span.end <= t.len(),
    ensures
        key@ == key_of(t@.subrange(span.start + 2, span.end - 1)),
{
    let from = span.start + 2;
    let to = span.end - 1;
    let ghost inner = t@.subrange(from as int, to as int);
    match find_colon(t, from, to) {
        None => slice_to_string(t, from, to),
        Some(k) => {
            proof {
                assert(t@.subrange(from as int, from + k) == inner.take(k as int));
            }
            slice_to_string(t, from, from + k)
        },
    }
}

/// The default of the placeholder `span` of the template `t`, if it has one,
/// or else its inside.
pub fn placeholder_default(t: &Vec<char>, span: Span) -> (r: Result<String, String>)
    requires
        span.start + 4 <= span.end <= t.len(),
    ensures
        match default_of(t@.subrange(span.start + 2, span.end - 1)) {
            Some(default) => r matches Ok(text) && text@ == default && text@.len() < t@.len(),
            None => r matches Err(inside) && inside@ == t@.subrange(
                span.start + 2,
                span.end - 1,
            ),
        },
{
    let from = span.start + 2;
    let to = span.end - 1;
    let ghost inner = t@.subrange(from as int, to as int);
    match find_colon(t, from, to) {
        None => Err(slice_to_string(t, from, to)),
        Some(k) => {
            proof {
                assert(t@.subrange(from + k + 1, to as int) == inner.skip(k + 1));
            }
            Ok(slice_to_string(t, from + k + 1, to))
        },
    }
}

/// Appends `t[from..to]` to `out`.
pub fn extend_range(out: &mut Vec<char>, t: &Vec<char>, from: usize, to: usize)
    requires
        from <= to <= t.len(),
    ensures
        final(out)@ == old(out)@ + t@.subrange(from as int, to as int),
{
    let mut i: usize = from;
    proof {
        assert(out@ + t@.subrange(from as int, from as int) == out@);
    }
    while i < to
        invariant
            from <= i <= to <= t.len(),
            out@ == old(out)@ + t@.subrange(from as int, i as int),
        decreases to - i,
    {
        out.push(t[i]);
        proof {
            assert(t@.subrange(from as int, i as int).push(t@[i as int]) == t@.subrange(
                from as int,
                i + 1,
            ));
            assert((old(out)@ + t@.subrange(from as int, i as int)).push(t@[i as int]) == old(
                out,
            )@ + t@.subrange(from as int, i as int).push(t@[i as int]));
        }
        i += 1;
    }
}

/// `table_at` is the least position of `key` in `keys`.
pub proof fn lemma_table_at(keys: Seq<Seq<char>>, key: Seq<char>)
    ensures
        0 <= table_at(keys, key) <= keys.len(),
        table_at(keys, key) < keys.len() ==> keys[table_at(keys, key)] == key,
        forall|i: int| 0 <= i < table_at(keys, key) ==> #[trigger] keys[i] != key,
    decreases keys.len(),
{
    if keys.len() > 0 && keys[0] != key {
        let rest = keys.drop_first();
        lemma_table_at(rest, key);
        assert forall|i: int| 0 <= i < table_at(keys, key) implies #[trigger] keys[i] != key by {
            if i > 0 {
                assert(keys[i] == rest[i - 1]);
            }
        }
    }
}

/// A table whose every entry is what the properties hold under its key holds
/// the same as the properties under every key of the table.
pub proof fn lemma_table_agrees(
    keys: Seq<Seq<char>>,
    found: Seq<Option<Seq<char>>>,
    props: Map<Seq<char>, Seq<char>>,
)
    requires
        keys.len() == found.len(),
        forall|k: int| 0 <= k < keys.len() ==> agrees_at(props, keys[k], #[trigger] found[k]),
    ensures
        forall|key: Seq<char>| #[trigger]
            keys.contains(key) ==> same_at(table_props(keys, found), props, key),
{
    assert forall|key: Seq<char>| #[trigger] keys.contains(key) implies same_at(
        table_props(keys, found),
        props,
        key,
    ) by {
        lemma_table_at(keys, key);
        let at = table_at(keys, key);
        let i = choose|i: int| 0 <= i < keys.len() && keys[i] == key;
        if at >= keys.len() {
            assert(keys[i] != key);
        }
        assert(agrees_at(props, keys[at], found[at]));
    }
}

/// The expansion of a template depends on the properties only under the
/// keys that the template holds.
pub proof fn lemma_expand_agrees(t: Seq<char>, a: Map<Seq<char>, Seq<char>>, b: Map<Seq<char>, Seq<char>>)
    requires
        forall|key: Seq<char>| #[trigger] keys_in(t).contains(key) ==> same_at(a, b, key),
    ensures
        expand(t, a) == expand(t, b),
    decreases t.len(), 2nat, 0nat,
{
    assert(keys_in(t) == keys_of_spans(t, scan(t, 0)));
    lemma_pieces_agrees(t, 0, scan(t, 0), a, b);
}

/// What a list of placeholders makes of a template depends on the properties
/// only under the keys that the placeholders hold.
pub proof fn lemma_pieces_agrees(
    t: Seq<char>,
    from: int,
    spans: Seq<(int, int)>,
    a: Map<Seq<char>, Seq<char>>,
    b: Map<Seq<char>, Seq<char>>,
)
    requires
        forall|key: Seq<char>| #[trigger] keys_of_spans(t, spans).contains(key) ==> same_at(a, b, key),
    ensures
        pieces(t, from, spans, a) == pieces(t, from, spans, b),
    decreases t.len(), 1nat, spans.len(),
{
    if spans.len() > 0 {
        let (start, end) = spans[0];
        if 0 <= from <= start && start + 4 <= end <= t.len() {
            let inner = t.subrange(start + 2, end - 1);
            let head = keys_of_inner(inner);
            let tail = keys_of_spans(t, spans.drop_first());
            assert forall|key: Seq<char>| #[trigger] head.contains(key) implies same_at(a, b, key) by {
                let i = choose|i: int| 0 <= i < head.len() && head[i] == key;
                assert((head + tail)[i] == key);
                assert(keys_of_spans(t, spans).contains(key));
            }
            assert forall|key: Seq<char>| #[trigger] tail.contains(key) implies same_at(a, b, key) by {
                let i = choose|i: int| 0 <= i < tail.len() && tail[i] == key;
                assert((head + tail)[head.len() + i] == key);
                assert(keys_of_spans(t, spans).contains(key));
            }
            lemma_resolve_agrees(inner, a, b);
            lemma_pieces_agrees(t, end, spans.drop_first(), a, b);
        }
    }
}

/// What a placeholder stands for depends on the properties only under the
/// keys that the placeholder holds.
pub proof fn lemma_resolve_agrees(inner: Seq<char>, a: Map<Seq<char>, Seq<char>>, b: Map<Seq<char>, Seq<char>>)
    requires
        forall|key: Seq<char>| #[trigger] keys_of_inner(inner).contains(key) ==> same_at(a, b, key),
    ensures
        resolve(inner, a) == resolve(inner, b),
    decreases inner.len(), 3nat, 0nat,
{
    let own = seq![key_of(inner)];
    assert(own[0] == key_of(inner));
    match default_of(inner) {
        None => {
            assert(keys_of_inner(inner) == own + Seq::<Seq<char>>::empty());
            assert((own + Seq::<Seq<char>>::empty())[0] == key_of(inner));
            assert(keys_of_inner(inner).contains(key_of(inner)));
        },
        Some(default) => {
            lemma_first_at(inner, ':', 0);
            let rest = keys_in(default);
            assert((own + rest)[0] == key_of(inner));
            assert(keys_of_inner(inner).contains(key_of(inner)));
            assert forall|key: Seq<char>| #[trigger] rest.contains(key) implies same_at(a, b, key) by {
                let i = choose|i: int| 0 <= i < rest.len() && rest[i] == key;
                assert((own + rest)[1 + i] == key);
                assert(keys_of_inner(inner).contains(key));
            }
            lemma_expand_agrees(default, a, b);
        },
    }
}

/// What was found for `key` when the keys of a table were looked up.
pub fn look_up<'a>(keys: &Vec<String>, found: &'a Vec<Option<String>>, key: &str) -> (r: Option<
    &'a String,
>)
    ensures
        match r {
            Some(text) => table_props(views(keys@), texts(found@)).contains_key(key@)
                && table_props(views(keys@), texts(found@))[key@] == text@,
            None => !table_props(views(keys@), texts(found@)).contains_key(key@),
        },
{
    let mut i: usize = 0;
    while i < keys.len() && !str_eq(keys[i].as_str(), key)
        invariant
            i <= keys.len(),
            forall|k: int| 0 <= k < i ==> #[trigger] views(keys@)[k] != key@,
        decreases keys.len() - i,
    {
        i += 1;
    }
    proof {
        lemma_table_at(views(keys@), key@);
        let at = table_at(views(keys@), key@);
        if at < i {
            assert(views(keys@)[at] != key@);
        }
        if i < keys.len() {
            assert(views(keys@)[i as int] == key@);
        }
        assert(at == i);
    }
    if i < keys.len() && i < found.len() {
        proof {
            assert(texts(found@)[i as int] == text_of(found@[i as int]));
        }
        match &found[i] {
            Some(text) => Some(text),
            None => None,
        }
    } else {
        None
    }
}

/// The keys that the expansion of the template `t` may look up.
pub fn template_keys(t: &Vec<char>) -> (keys: Vec<String>)
    ensures
        views(keys@) == keys_in(t@),
    decreases t@.len(),
{
    let spans = find_placeholders(t);
    let mut keys: Vec<String> = Vec::new();
    let mut i: usize = 0;
    proof {
        lemma_scan_spans(t@, 0);
        assert(pairs(spans@).skip(0) == pairs(spans@));
        assert(views(keys@) == Seq::<Seq<char>>::empty());
        assert(views(keys@) + keys_in(t@) == keys_in(t@));
    }
    while i < spans.len()
        invariant
            i <= spans.len(),
            pairs(spans@) == scan(t@, 0),
            forall|k: int| 0 <= k < scan(t@, 0).len() ==> span_fits(t@, 0, #[trigger] scan(t@, 0)[k]),
            views(keys@) + keys_of_spans(t@, pairs(spans@).skip(i as int)) == keys_in(t@),
        decreases spans.len() - i,
    {
        let span = spans[i];
        let ghost rest = pairs(spans@).skip(i as int);
        let ghost before = views(keys@);
        let ghost inner = t@.subrange(span.start + 2, span.end - 1);
        proof {
            assert(pairs(spans@)[i as int] == (span.start as int, span.end as int));
            assert(span_fits(t@, 0, scan(t@, 0)[i as int]));
            assert(rest[0] == pairs(spans@)[i as int]);
            assert(rest.drop_first() == pairs(spans@).skip(i + 1));
        }
        keys.push(placeholder_key(t, span));
        proof {
            assert(views(keys@) == before + seq![key_of(inner)]);
        }
        match placeholder_default(t, span) {
            Err(_) => {
                proof {
                    assert(keys_of_inner(inner) == seq![key_of(inner)] + Seq::<Seq<char>>::empty());
                    assert(keys_of_inner(inner) == seq![key_of(inner)]);
                }
            },
            Ok(default) => {
                let inside = template_keys(&to_chars(default.as_str()));
                let ghost mid = views(keys@);
                let mut j: usize = 0;
                while j < inside.len()
                    invariant
                        j <= inside.len(),
                        views(keys@) == mid + views(inside@).take(j as int),
                    decreases inside.len() - j,
                {
                    let ghost prev = views(keys@);
                    keys.push(inside[j].clone());
                    proof {
                        assert(views(keys@) == prev.push(inside@[j as int]@));
                        assert(views(inside@)[j as int] == inside@[j as int]@);
                        assert(views(inside@).take(j as int).push(views(inside@)[j as int])
                            == views(inside@).take(j + 1));
                        assert((mid + views(inside@).take(j as int)).push(views(inside@)[j as int])
                            == mid + views(inside@).take(j as int).push(views(inside@)[j as int]));
                        assert(views(keys@) == mid + views(inside@).take(j + 1));
                    }
                    j += 1;
                }
                proof {
                    assert(views(inside@).take(inside.len() as int) == views(inside@));
                    assert(views(keys@) == before + (seq![key_of(inner)] + keys_in(default@)));
                }
            },
        }
        proof {
            assert(views(keys@) == before + keys_of_inner(inner));
            assert(before + (keys_of_inner(inner) + keys_of_spans(t@, rest.drop_first())) == (before
                + keys_of_inner(inner)) + keys_of_spans(t@, rest.drop_first()));
        }
        i += 1;
    }
    proof {
        assert(pairs(spans@).skip(spans.len() as int) == Seq::<(int, int)>::empty());
        assert(views(keys@) + Seq::<Seq<char>>::empty() == views(keys@));
    }
    keys
}

/// Whether `r` is the expansion `expanded` of a template: the expanded text,
/// or `PropertyNotFound` with the inside of the placeholder that stands for
/// nothing.
pub open spec fn expansion_is(expanded: Result<Seq<char>, Seq<char>>, r: Result<String, Error>) -> bool {
    match expanded {
        Ok(text) => r matches Ok(s) && s@ == text,
        Err(key) => r matches Err(e) && e@ == (Failure::PropertyNotFound { key }),
    }
}

/// What the placeholder `span` of the template `t` stands for over the
/// properties that a table of looked-up keys holds.
pub fn placeholder_text(t: &Vec<char>, span: Span, keys: &Vec<String>, found: &Vec<Option<String>>) -> (r:
    Result<String, Error>)
    requires
        span.start + 4 <= span.end <= t.len(),
    ensures
        expansion_is(
            resolve(
                t@.subrange(span.start + 2, span.end - 1),
                table_props(views(keys@), texts(found@)),
            ),
            r,
        ),
    decreases t@.len(), 0nat,
{
    let ghost inner = t@.subrange(span.start + 2, span.end - 1);
    let ghost props = table_props(views(keys@), texts(found@));
    let key = placeholder_key(t, span);
    match look_up(keys, found, key.as_str()) {
        Some(text) => Ok(text.clone()),
        None => match placeholder_default(t, span) {
            Err(inside) => Err(Error::PropertyNotFound { key: inside }),
            Ok(default) => {
                proof {
                    assert(resolve(inner, props) == expand(default@, props));
                }
                expand_with(default.as_str(), keys, found)
            },
        },
    }
}

/// The expansion of `template` over the properties that a table of looked-up
/// keys holds.
pub fn expand_with(template: &str, keys: &Vec<String>, found: &Vec<Option<String>>) -> (r: Result<
    String,
    Error,
>)
    ensures
        expansion_is(expand(template@, table_props(views(keys@), texts(found@))), r),
    decreases template@.len(), 1nat,
{
    let t = to_chars(template);
    let spans = find_placeholders(&t);
    let mut out: Vec<char> = Vec::new();
    let mut pos: usize = 0;
    let ghost props = table_props(views(keys@), texts(found@));
    let mut i: usize = 0;
    proof {
        lemma_scan_spans(t@, 0);
        lemma_scan_ordered(t@, 0);
        assert(pairs(spans@).skip(0) == pairs(spans@));
        match pieces(t@, 0, scan(t@, 0), props) {
            Ok(rest) => {
                assert(out@ + rest == rest);
            },
            Err(_) => {},
        }
        if spans.len() > 0 {
            assert(span_fits(t@, 0, scan(t@, 0)[0]));
        }
    }
    while i < spans.len()
        invariant
            i <= spans.len(),
            pos <= t.len(),
            t@ == template@,
            props == table_props(views(keys@), texts(found@)),
            pairs(spans@) == scan(t@, 0),
            forall|k: int| 0 <= k < scan(t@, 0).len() ==> span_fits(t@, 0, #[trigger] scan(t@, 0)[k]),
            forall|k: int|
                0 <= k && k + 1 < scan(t@, 0).len() ==> (#[trigger] scan(t@, 0)[k]).1 <= scan(
                    t@,
                    0,
                )[k + 1].0,
            i < spans.len() ==> pos <= spans[i as int].start,
            joined(out@, pieces(t@, pos as int, pairs(spans@).skip(i as int), props)) == expand(
                t@,
                props,
            ),
        decreases spans.len() - i,
    {
        let span = spans[i];
        let ghost inner = t@.subrange(span.start + 2, span.end - 1);
        let ghost rest = pairs(spans@).skip(i as int);
        let ghost before = out@;
        proof {
            assert(pairs(spans@)[i as int] == (span.start as int, span.end as int));
            assert(span_fits(t@, 0, scan(t@, 0)[i as int]));
            assert(rest[0] == pairs(spans@)[i as int]);
            assert(rest.drop_first() == pairs(spans@).skip(i + 1));
            if i + 1 < spans.len() {
                assert(pairs(spans@)[i + 1] == (
                    spans[i + 1].start as int,
                    spans[i + 1].end as int,
                ));
                assert(scan(t@, 0)[i as int].1 <= scan(t@, 0)[i + 1].0);
            }
        }
        let text = match placeholder_text(&t, span, keys, found) {
            Ok(text) => text,
            Err(e) => {
                proof {
                    assert(pieces(t@, pos as int, rest, props) == resolve(inner, props));
                }
                return Err(e);
            },
        };
        extend_range(&mut out, &t, pos, span.start);
        let chars = to_chars(text.as_str());
        extend_chars(&mut out, &chars);
        proof {
            let tail = pieces(t@, span.end as int, rest.drop_first(), props);
            let piece = t@.subrange(pos as int, span.start as int) + text@;
            assert(out@ == before + piece);
            assert(pieces(t@, pos as int, rest, props) == joined(piece, tail));
            match tail {
                Ok(more) => {
                    assert(before + (piece + more) == (before + piece) + more);
                },
                Err(_) => {},
            }
        }
        pos = span.end;
        i += 1;
    }
    proof {
        assert(pairs(spans@).skip(spans.len() as int) == Seq::<(int, int)>::empty());
        assert(pieces(t@, pos as int, Seq::<(int, int)>::empty(), props) == Ok::<
            Seq<char>,
            Seq<char>,
        >(t@.skip(pos as int)));
        assert(t@.subrange(pos as int, t.len() as int) == t@.skip(pos as int));
    }
    extend_range(&mut out, &t, pos, t.len());
    Ok(from_chars(&out))
}

/// A placeholder whose key has no value stands for the expansion of its
/// default: the default is a template itself, and where it cannot be expanded
/// the placeholder stands for nothing.
pub proof fn lemma_default_is_expanded(inner: Seq<char>, props: Map<Seq<char>, Seq<char>>)
    requires
        !props.contains_key(key_of(inner)),
        default_of(inner) is Some,
    ensures
        resolve(inner, props) == expand(default_of(inner)->0, props),
{
}

/// A placeholder whose key has a value stands for that value, whatever its
/// default holds.
pub proof fn lemma_value_wins(inner: Seq<char>, props: Map<Seq<char>, Seq<char>>)
    requires
        props.contains_key(key_of(inner)),
    ensures
        resolve(inner, props) == Ok::<Seq<char>, Seq<char>>(props[key_of(inner)]),
{
}

} // verus!
