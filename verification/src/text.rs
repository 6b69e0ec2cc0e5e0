//! Text as a sequence of characters: searching, cutting, replacing and joining.

use crate::views;
use vstd::prelude::*;
use vstd::string::StringExecFns;

verus! {

/// `String::push` appends one character: the text afterwards is the text before with `c` behind it.
pub assume_specification[ String::push ](s: &mut String, c: char)
    ensures
        final(s)@ == old(s)@.push(c),
;

/// What can be handed over where an owned text is wanted.
pub trait IntoText: Sized {
    /// The characters of the text.
    spec fn text(&self) -> Seq<char>;

    /// The same characters as an owned text.
    fn into_text(self) -> (owned: String)
        ensures
            owned@ == self.text(),
    ;
}

impl IntoText for String {
    open spec fn text(&self) -> Seq<char> {
        self@
    }

    fn into_text(self) -> (owned: String) {
        self
    }
}

impl<'a> IntoText for &'a str {
    open spec fn text(&self) -> Seq<char> {
        self@
    }

    fn into_text(self) -> (owned: String) {
        self.to_owned()
    }
}

impl<'a> IntoText for &'a String {
    open spec fn text(&self) -> Seq<char> {
        self@
    }

    fn into_text(self) -> (owned: String) {
        self.clone()
    }
}

/// A copy of an optional text.
pub fn copy_optional(s: &Option<String>) -> (copy: Option<String>)
    ensures
        views::option(copy) == views::option(*s),
{
    match s {
        Some(t) => Some(t.clone()),
        None => None,
    }
}

/// Whether two texts hold the same characters.
pub fn same_text(a: &str, b: &str) -> (same: bool)
    ensures
        same == (a@ == b@),
{
    let left: String = a.to_owned();
    let right: String = b.to_owned();
    left == right
}

/// How many bytes the text takes in UTF-8.
pub fn byte_len(s: &str) -> (len: usize)
    ensures
        len == vstd::utf8::encode_utf8(s@).len(),
{
    s.as_bytes().len()
}

/// The two texts one behind the other.
pub fn joined(a: &str, b: &str) -> (s: String)
    ensures
        s@ == a@ + b@,
{
    a.to_owned().concat(b)
}

/// The three texts one behind the other.
pub fn joined3(a: &str, b: &str, c: &str) -> (s: String)
    ensures
        s@ == a@ + b@ + c@,
{
    a.to_owned().concat(b).concat(c)
}

/// The characters of `s`, one by one.
pub fn chars_of(s: &str) -> (chars: Vec<char>)
    ensures
        chars@ == s@,
{
    let mut chars: Vec<char> = Vec::new();
    for c in it: s.chars()
        invariant
            chars@ == it.seq().take(it.index() as int),
            it.seq() == s@,
    {
        chars.push(c);
    }
    chars
}

/// The text made of `chars[from..to]`.
pub fn text_of(chars: &Vec<char>, from: usize, to: usize) -> (s: String)
    requires
        from <= to <= chars@.len(),
    ensures
        s@ == chars@.subrange(from as int, to as int),
{
    let mut s = String::new();
    for i in from..to
        invariant
            from <= to <= chars@.len(),
            s@ == chars@.subrange(from as int, i as int),
    {
        s.push(chars[i]);
    }
    s
}

// ==================== Searching ====================

/// `pattern` stands in `s` at position `i`.
pub open spec fn occurs_at(s: Seq<char>, pattern: Seq<char>, i: int) -> bool {
    &&& 0 <= i
    &&& i + pattern.len() <= s.len()
    &&& s.subrange(i, i + pattern.len()) == pattern
}

/// `pattern` stands somewhere in `s`.
pub open spec fn occurs_in(s: Seq<char>, pattern: Seq<char>) -> bool {
    exists|i: int| occurs_at(s, pattern, i)
}

/// The leftmost place at or behind `from` where `pattern` stands is `i`.
pub open spec fn first_from(s: Seq<char>, pattern: Seq<char>, from: int, i: int) -> bool {
    &&& from <= i
    &&& occurs_at(s, pattern, i)
    &&& forall|j: int| from <= j < i ==> !occurs_at(s, pattern, j)
}

/// Whether `pattern` stands in `chars` at position `i`.
fn matches_at(chars: &Vec<char>, pattern: &Vec<char>, i: usize) -> (found: bool)
    requires
        i + pattern@.len() <= chars@.len(),
    ensures
        found == occurs_at(chars@, pattern@, i as int),
{
    for k in 0..pattern.len()
        invariant
            i + pattern.len() <= chars.len(),
            forall|j: int| 0 <= j < k ==> chars@[i + j] == pattern@[j],
    {
        if chars[i + k] != pattern[k] {
            assert(chars@.subrange(i as int, i + pattern@.len())[k as int] != pattern@[k as int]);
            return false;
        }
    }
    assert(chars@.subrange(i as int, i + pattern@.len()) =~= pattern@);
    true
}

/// The leftmost position at or behind `from` where `pattern` stands in `chars`.
fn find_from(chars: &Vec<char>, pattern: &Vec<char>, from: usize) -> (found: Option<usize>)
    requires
        from <= chars@.len(),
    ensures
        match found {
            Some(i) => first_from(chars@, pattern@, from as int, i as int),
            None => forall|j: int| from <= j ==> !occurs_at(chars@, pattern@, j),
        },
{
    let mut i: usize = from;
    while i <= chars.len() && pattern.len() <= chars.len() - i
        invariant
            from <= i <= chars@.len() + 1,
            forall|j: int| from <= j < i ==> !occurs_at(chars@, pattern@, j),
        decreases chars@.len() + 1 - i,
    {
        if matches_at(chars, pattern, i) {
            return Some(i);
        }
        if i == chars.len() {
            return None;
        }
        i = i + 1;
    }
    None
}

/// Whether `pattern` stands somewhere in `s`.
pub fn contains(s: &str, pattern: &str) -> (found: bool)
    ensures
        found == occurs_in(s@, pattern@),
{
    let chars = chars_of(s);
    let wanted = chars_of(pattern);
    match find_from(&chars, &wanted, 0) {
        Some(i) => {
            assert(occurs_at(s@, pattern@, i as int));
            true
        },
        None => false,
    }
}

/// Some text of `patterns` stands in `s`.
pub open spec fn any_occurs_in(s: Seq<char>, patterns: Seq<Seq<char>>) -> bool {
    exists|k: int| 0 <= k < patterns.len() && occurs_in(s, #[trigger] patterns[k])
}

/// The characters of each text of a list of borrowed texts.
pub open spec fn str_texts(list: Seq<&str>) -> Seq<Seq<char>> {
    list.map_values(|s: &str| s@)
}

/// Whether some text of `patterns` stands in `s`.
pub fn contains_any(s: &str, patterns: &[&str]) -> (found: bool)
    ensures
        found == any_occurs_in(s@, str_texts(patterns@)),
{
    let ghost wanted = str_texts(patterns@);
    for k in 0..patterns.len()
        invariant
            wanted == str_texts(patterns@),
            forall|j: int| 0 <= j < k ==> !occurs_in(s@, #[trigger] wanted[j]),
    {
        assert(wanted[k as int] == patterns@[k as int]@);
        if contains(s, patterns[k]) {
            return true;
        }
    }
    false
}

/// What stands in a text stands in every text around it.
pub proof fn lemma_any_occurs_in_more(
    before: Seq<char>,
    s: Seq<char>,
    behind: Seq<char>,
    patterns: Seq<Seq<char>>,
)
    ensures
        any_occurs_in(s, patterns) ==> any_occurs_in(before + s + behind, patterns),
{
    if any_occurs_in(s, patterns) {
        let k = choose|k: int| 0 <= k < patterns.len() && occurs_in(s, #[trigger] patterns[k]);
        let pattern = patterns[k];
        let i = choose|i: int| occurs_at(s, pattern, i);
        let more = before + s + behind;
        assert(more.subrange(before.len() + i, before.len() + i + pattern.len()) =~= s.subrange(
            i,
            i + pattern.len(),
        ));
        assert(occurs_at(more, pattern, before.len() + i));
        assert(occurs_in(more, patterns[k]));
    }
}

// ==================== Counting and replacing ====================

/// How many times `pattern` stands in `s`, counted from the left without overlaps. An empty
/// pattern stands before every character and at the end.
pub open spec fn occurrences(s: Seq<char>, pattern: Seq<char>) -> nat
    decreases s.len(),
{
    if pattern.len() == 0 {
        s.len() + 1
    } else if exists|i: int| first_from(s, pattern, 0, i) {
        let i = choose|i: int| first_from(s, pattern, 0, i);
        1 + occurrences(s.skip(i + pattern.len()), pattern)
    } else {
        0
    }
}

/// `s` with each occurrence of `pattern`, taken from the left without overlaps, replaced by
/// `replacement`. An empty pattern stands before every character and at the end.
pub open spec fn replaced(
    s: Seq<char>,
    pattern: Seq<char>,
    replacement: Seq<char>,
) -> Seq<char>
    decreases s.len(),
{
    if pattern.len() == 0 {
        if s.len() == 0 {
            replacement
        } else {
            replacement + seq![s[0]] + replaced(s.skip(1), pattern, replacement)
        }
    } else if exists|i: int| first_from(s, pattern, 0, i) {
        let i = choose|i: int| first_from(s, pattern, 0, i);
        s.take(i) + replacement + replaced(s.skip(i + pattern.len()), pattern, replacement)
    } else {
        s
    }
}

/// `s` with the leftmost occurrence of `pattern` replaced by `replacement`.
pub open spec fn replaced_once(
    s: Seq<char>,
    pattern: Seq<char>,
    replacement: Seq<char>,
) -> Seq<char> {
    if exists|i: int| first_from(s, pattern, 0, i) {
        let i = choose|i: int| first_from(s, pattern, 0, i);
        s.take(i) + replacement + s.skip(i + pattern.len())
    } else {
        s
    }
}

/// Two leftmost places are the same place.
proof fn lemma_first_is_unique(s: Seq<char>, pattern: Seq<char>, i: int, j: int)
    requires
        first_from(s, pattern, 0, i),
        first_from(s, pattern, 0, j),
    ensures
        i == j,
{
}

/// Searching behind `from` is searching in what stands behind `from`.
proof fn lemma_first_in_rest(s: Seq<char>, pattern: Seq<char>, from: int, i: int)
    requires
        0 <= from <= s.len(),
        first_from(s, pattern, from, i),
    ensures
        first_from(s.skip(from), pattern, 0, i - from),
{
    assert forall|j: int| occurs_at(s.skip(from), pattern, j) implies occurs_at(
        s,
        pattern,
        j + from,
    ) by {
        assert(s.skip(from).subrange(j, j + pattern.len()) =~= s.subrange(
            j + from,
            j + from + pattern.len(),
        ));
    }
    assert(s.skip(from).subrange(i - from, i - from + pattern.len()) =~= s.subrange(
        i,
        i + pattern.len(),
    ));
    assert forall|j: int| 0 <= j < i - from implies !occurs_at(s.skip(from), pattern, j) by {
        if occurs_at(s.skip(from), pattern, j) {
            assert(occurs_at(s, pattern, j + from));
        }
    }
}

/// What is nowhere behind `from` is nowhere in what stands behind `from`.
proof fn lemma_none_in_rest(s: Seq<char>, pattern: Seq<char>, from: int)
    requires
        0 <= from <= s.len(),
        forall|j: int| from <= j ==> !occurs_at(s, pattern, j),
    ensures
        forall|i: int| !first_from(s.skip(from), pattern, 0, i),
{
    assert forall|i: int| !first_from(s.skip(from), pattern, 0, i) by {
        if first_from(s.skip(from), pattern, 0, i) {
            assert(s.skip(from).subrange(i, i + pattern.len()) =~= s.subrange(
                i + from,
                i + from + pattern.len(),
            ));
            assert(occurs_at(s, pattern, i + from));
        }
    }
}

/// How many times `pattern` stands in `s`, counted from the left without overlaps.
pub fn count(s: &str, pattern: &str) -> (n: u128)
    ensures
        n == occurrences(s@, pattern@),
{
    let chars = chars_of(s);
    let wanted = chars_of(pattern);
    if wanted.len() == 0 {
        return chars.len() as u128 + 1;
    }
    let mut from: usize = 0;
    let mut n: u128 = 0;
    assert(s@.skip(0) =~= s@);
    loop
        invariant
            chars@ == s@,
            wanted@ == pattern@,
            wanted.len() > 0,
            n <= from <= chars.len(),
            occurrences(s@, pattern@) == n + occurrences(s@.skip(from as int), pattern@),
        decreases chars.len() - from,
    {
        match find_from(&chars, &wanted, from) {
            None => {
                proof {
                    lemma_none_in_rest(s@, pattern@, from as int);
                }
                return n;
            },
            Some(i) => {
                proof {
                    let rest = s@.skip(from as int);
                    lemma_first_in_rest(s@, pattern@, from as int, i as int);
                    let k = choose|k: int| first_from(rest, pattern@, 0, k);
                    lemma_first_is_unique(rest, pattern@, k, i - from);
                    assert(rest.skip(k + pattern@.len()) =~= s@.skip(i + pattern@.len()));
                }
                n = n + 1;
                from = i + wanted.len();
            },
        }
    }
}

/// Appends `chars[from..to]` to `out`.
fn push_range(out: &mut String, chars: &Vec<char>, from: usize, to: usize)
    requires
        from <= to <= chars.len(),
    ensures
        final(out)@ == old(out)@ + chars@.subrange(from as int, to as int),
{
    let ghost start = out@;
    for i in from..to
        invariant
            from <= to <= chars.len(),
            out@ == start + chars@.subrange(from as int, i as int),
    {
        out.push(chars[i]);
    }
}

/// `s` with each occurrence of `pattern` replaced, from the left without overlaps.
pub fn replace(s: &str, pattern: &str, replacement: &str) -> (out: String)
    ensures
        out@ == replaced(s@, pattern@, replacement@),
{
    let chars = chars_of(s);
    let wanted = chars_of(pattern);
    let mut out = String::new();
    assert(s@.skip(0) =~= s@);
    assert(out@ + replaced(s@, pattern@, replacement@) =~= replaced(s@, pattern@, replacement@));
    if wanted.len() == 0 {
        for i in 0..chars.len()
            invariant
                chars@ == s@,
                pattern@.len() == 0,
                replaced(s@, pattern@, replacement@) == out@ + replaced(
                    s@.skip(i as int),
                    pattern@,
                    replacement@,
                ),
        {
            let ghost before = out@;
            out.append(replacement);
            out.push(chars[i]);
            proof {
                let rest = s@.skip(i as int);
                assert(rest.skip(1) =~= s@.skip(i + 1));
                assert(rest[0] == s@[i as int]);
                let tail = replaced(s@.skip(i + 1), pattern@, replacement@);
                assert(before + (replacement@ + seq![rest[0]] + tail) =~= out@ + tail);
            }
        }
        out.append(replacement);
        return out;
    }
    let mut from: usize = 0;
    loop
        invariant
            chars@ == s@,
            wanted@ == pattern@,
            wanted.len() > 0,
            from <= chars.len(),
            replaced(s@, pattern@, replacement@) == out@ + replaced(
                s@.skip(from as int),
                pattern@,
                replacement@,
            ),
        decreases chars.len() - from,
    {
        let ghost rest = s@.skip(from as int);
        match find_from(&chars, &wanted, from) {
            None => {
                proof {
                    lemma_none_in_rest(s@, pattern@, from as int);
                }
                push_range(&mut out, &chars, from, chars.len());
                assert(s@.subrange(from as int, s@.len() as int) =~= rest);
                return out;
            },
            Some(i) => {
                let ghost before = out@;
                push_range(&mut out, &chars, from, i);
                out.append(replacement);
                proof {
                    lemma_first_in_rest(s@, pattern@, from as int, i as int);
                    let k = choose|k: int| first_from(rest, pattern@, 0, k);
                    lemma_first_is_unique(rest, pattern@, k, i - from);
                    let behind = s@.skip(i + pattern@.len());
                    assert(rest.skip(k + pattern@.len()) =~= behind);
                    assert(rest.take(k) =~= s@.subrange(from as int, i as int));
                    let tail = replaced(behind, pattern@, replacement@);
                    assert(before + (rest.take(k) + replacement@ + tail) =~= out@ + tail);
                }
                from = i + wanted.len();
            },
        }
    }
}

/// `s` with the leftmost occurrence of `pattern` replaced.
pub fn replace_once(s: &str, pattern: &str, replacement: &str) -> (out: String)
    ensures
        out@ == replaced_once(s@, pattern@, replacement@),
{
    let chars = chars_of(s);
    let wanted = chars_of(pattern);
    match find_from(&chars, &wanted, 0) {
        None => {
            assert(forall|i: int| !first_from(s@, pattern@, 0, i));
            s.to_owned()
        },
        Some(i) => {
            assert(i + wanted.len() <= chars.len());
            let mut out = String::new();
            push_range(&mut out, &chars, 0, i);
            out.append(replacement);
            push_range(&mut out, &chars, i + wanted.len(), chars.len());
            proof {
                let k = choose|k: int| first_from(s@, pattern@, 0, k);
                lemma_first_is_unique(s@, pattern@, k, i as int);
                assert(s@.subrange(0, i as int) =~= s@.take(i as int));
                assert(s@.subrange(i + pattern@.len(), s@.len() as int) =~= s@.skip(
                    i + pattern@.len(),
                ));
            }
            out
        },
    }
}

/// A text that stands somewhere stands somewhere first.
proof fn lemma_first_exists(s: Seq<char>, pattern: Seq<char>, i: int)
    requires
        occurs_at(s, pattern, i),
    ensures
        exists|k: int| first_from(s, pattern, 0, k),
    decreases i,
{
    if forall|j: int| 0 <= j < i ==> !occurs_at(s, pattern, j) {
        assert(first_from(s, pattern, 0, i));
    } else {
        let j = choose|j: int| 0 <= j < i && occurs_at(s, pattern, j);
        lemma_first_exists(s, pattern, j);
    }
}

/// A pattern is counted if and only if it stands in the text, and then it has a first place.
pub proof fn law_what_occurs_is_counted(s: Seq<char>, pattern: Seq<char>)
    ensures
        occurs_in(s, pattern) <==> occurrences(s, pattern) > 0,
        occurs_in(s, pattern) <==> exists|k: int| first_from(s, pattern, 0, k),
{
    if occurs_in(s, pattern) {
        let i = choose|i: int| occurs_at(s, pattern, i);
        lemma_first_exists(s, pattern, i);
    }
    if exists|k: int| first_from(s, pattern, 0, k) {
        let k = choose|k: int| first_from(s, pattern, 0, k);
        assert(occurs_at(s, pattern, k));
    }
    if pattern.len() == 0 {
        assert(s.subrange(0, 0) =~= pattern);
        assert(occurs_at(s, pattern, 0));
    }
}

/// Each occurrence that is replaced changes the length by what the replacement is longer than the
/// pattern.
pub proof fn law_replacing_changes_the_length_by_occurrence(
    s: Seq<char>,
    pattern: Seq<char>,
    replacement: Seq<char>,
)
    ensures
        replaced(s, pattern, replacement).len() == s.len() + occurrences(s, pattern) * (
        replacement.len() - pattern.len()),
    decreases s.len(),
{
    let gain = replacement.len() - pattern.len();
    if pattern.len() == 0 {
        if s.len() > 0 {
            law_replacing_changes_the_length_by_occurrence(s.skip(1), pattern, replacement);
            let n = s.skip(1).len() as int;
            assert((n + 2) * gain == gain + (n + 1) * gain) by (nonlinear_arith);
        } else {
            assert(1 * gain == gain) by (nonlinear_arith);
        }
    } else if exists|i: int| first_from(s, pattern, 0, i) {
        let i = choose|i: int| first_from(s, pattern, 0, i);
        let rest = s.skip(i + pattern.len());
        law_replacing_changes_the_length_by_occurrence(rest, pattern, replacement);
        let n = occurrences(rest, pattern) as int;
        assert((1 + n) * gain == gain + n * gain) by (nonlinear_arith);
    } else {
        assert(0 * gain == 0) by (nonlinear_arith);
    }
}

/// A text stands in another if and only if the other is that text with something, or nothing,
/// before and behind it.
pub proof fn law_what_is_found_is_there(s: Seq<char>, pattern: Seq<char>)
    ensures
        occurs_in(s, pattern) <==> exists|before: Seq<char>, behind: Seq<char>|
            s == #[trigger] (before + pattern + behind),
{
    if occurs_in(s, pattern) {
        let i = choose|i: int| occurs_at(s, pattern, i);
        assert(s =~= s.take(i) + pattern + s.skip(i + pattern.len()));
    }
    if exists|before: Seq<char>, behind: Seq<char>| s == #[trigger] (before + pattern + behind) {
        let (before, behind) = choose|before: Seq<char>, behind: Seq<char>|
            s == #[trigger] (before + pattern + behind);
        assert(s.subrange(before.len() as int, before.len() as int + pattern.len()) =~= pattern);
        assert(occurs_at(s, pattern, before.len() as int));
    }
}

/// Replacing once puts the replacement in the leftmost place of the pattern and leaves all else as
/// it is, whether or not the pattern or the replacement is empty. Where the pattern stands nowhere
/// the text stays the same.
pub proof fn law_replacing_once_changes_the_leftmost_place(
    s: Seq<char>,
    pattern: Seq<char>,
    replacement: Seq<char>,
)
    ensures
        forall|i: int|
            #![trigger s.take(i)]
            0 <= i && i + pattern.len() <= s.len() && s.subrange(i, i + pattern.len()) == pattern
                && (forall|j: int|
                0 <= j < i ==> #[trigger] s.subrange(j, j + pattern.len()) != pattern)
                ==> replaced_once(s, pattern, replacement) == s.take(i) + replacement + s.skip(
                i + pattern.len(),
            ),
        (forall|i: int|
            0 <= i && i + pattern.len() <= s.len() ==> #[trigger] s.subrange(i, i + pattern.len())
                != pattern) ==> replaced_once(s, pattern, replacement) == s,
        (exists|i: int|
            0 <= i && i + pattern.len() <= s.len() && #[trigger] s.subrange(i, i + pattern.len())
                == pattern) ==> replaced_once(s, pattern, replacement).len() == s.len()
            - pattern.len() + replacement.len(),
{
    assert forall|i: int|
        #![trigger s.take(i)]
        0 <= i && i + pattern.len() <= s.len() && s.subrange(i, i + pattern.len()) == pattern && (
        forall|j: int|
            0 <= j < i ==> #[trigger] s.subrange(j, j + pattern.len()) != pattern) implies
        replaced_once(s, pattern, replacement) == s.take(i) + replacement + s.skip(
        i + pattern.len(),
    ) by {
        assert(first_from(s, pattern, 0, i));
        let k = choose|k: int| first_from(s, pattern, 0, k);
        lemma_first_is_unique(s, pattern, k, i);
    }
    if exists|i: int|
        0 <= i && i + pattern.len() <= s.len() && #[trigger] s.subrange(i, i + pattern.len())
            == pattern {
        let i = choose|i: int|
            0 <= i && i + pattern.len() <= s.len() && #[trigger] s.subrange(i, i + pattern.len())
                == pattern;
        assert(occurs_at(s, pattern, i));
        lemma_first_exists(s, pattern, i);
    }
}

/// What replacing does from the leftmost place of the pattern on: what stands before it stays, the
/// replacement takes its place, and what stands behind it is gone through in the same way. Each
/// such place counts as one. A text without the pattern stays the same and counts none.
pub proof fn law_replacing_goes_from_place_to_place(
    s: Seq<char>,
    pattern: Seq<char>,
    replacement: Seq<char>,
)
    requires
        pattern.len() > 0,
    ensures
        forall|i: int|
            #![trigger s.take(i)]
            0 <= i && i + pattern.len() <= s.len() && s.subrange(i, i + pattern.len()) == pattern
                && (forall|j: int|
                0 <= j < i ==> #[trigger] s.subrange(j, j + pattern.len()) != pattern) ==> {
                &&& replaced(s, pattern, replacement) == s.take(i) + replacement + replaced(
                    s.skip(i + pattern.len()),
                    pattern,
                    replacement,
                )
                &&& occurrences(s, pattern) == 1 + occurrences(s.skip(i + pattern.len()), pattern)
            },
        (forall|i: int|
            0 <= i && i + pattern.len() <= s.len() ==> #[trigger] s.subrange(i, i + pattern.len())
                != pattern) ==> replaced(s, pattern, replacement) == s && occurrences(s, pattern)
            == 0,
{
    assert forall|i: int|
        #![trigger s.take(i)]
        0 <= i && i + pattern.len() <= s.len() && s.subrange(i, i + pattern.len()) == pattern && (
        forall|j: int|
            0 <= j < i ==> #[trigger] s.subrange(j, j + pattern.len()) != pattern) implies {
        &&& replaced(s, pattern, replacement) == s.take(i) + replacement + replaced(
            s.skip(i + pattern.len()),
            pattern,
            replacement,
        )
        &&& occurrences(s, pattern) == 1 + occurrences(s.skip(i + pattern.len()), pattern)
    } by {
        assert(first_from(s, pattern, 0, i));
        let k = choose|k: int| first_from(s, pattern, 0, k);
        lemma_first_is_unique(s, pattern, k, i);
    }
}

/// An empty pattern stands before each character and at the end: replacing it puts the replacement
/// there, between characters that stay as they are.
pub proof fn law_replacing_nothing_spreads(s: Seq<char>, replacement: Seq<char>)
    ensures
        occurrences(s, Seq::empty()) == s.len() + 1,
        replaced(Seq::empty(), Seq::empty(), replacement) == replacement,
        s.len() > 0 ==> replaced(s, Seq::empty(), replacement) == replacement + seq![s[0]]
            + replaced(s.skip(1), Seq::empty(), replacement),
{
}

/// Replacing a text by itself changes nothing, everywhere or once.
pub proof fn law_replacing_by_the_same_changes_nothing(s: Seq<char>, pattern: Seq<char>)
    ensures
        replaced(s, pattern, pattern) == s,
        replaced_once(s, pattern, pattern) == s,
    decreases s.len(),
{
    if pattern.len() == 0 {
        if s.len() > 0 {
            law_replacing_by_the_same_changes_nothing(s.skip(1), pattern);
            assert(pattern + seq![s[0]] + s.skip(1) =~= s);
        } else {
            assert(pattern =~= s);
        }
        if exists|i: int| first_from(s, pattern, 0, i) {
            let i = choose|i: int| first_from(s, pattern, 0, i);
            assert(s.take(i) + pattern + s.skip(i + pattern.len()) =~= s);
        }
    } else if exists|i: int| first_from(s, pattern, 0, i) {
        let i = choose|i: int| first_from(s, pattern, 0, i);
        law_replacing_by_the_same_changes_nothing(s.skip(i + pattern.len()), pattern);
        assert(s.take(i) + pattern + s.skip(i + pattern.len()) =~= s);
    }
}

// ==================== Lines ====================

/// The first line feed of `s` is at position `i`.
pub open spec fn first_newline(s: Seq<char>, i: int) -> bool {
    &&& 0 <= i < s.len()
    &&& s[i] == '\n'
    &&& forall|j: int| 0 <= j < i ==> s[j] != '\n'
}

/// A line that ended in a line feed, without a carriage return right before it.
pub open spec fn without_return(line: Seq<char>) -> Seq<char> {
    if line.len() > 0 && line.last() == '\r' {
        line.drop_last()
    } else {
        line
    }
}

/// The lines of `s`. A line ends at a line feed, or at a carriage return followed by a line feed;
/// the ending is not part of the line, and the last line may go without one.
pub open spec fn lines_of(s: Seq<char>) -> Seq<Seq<char>>
    decreases s.len(),
{
    if s.len() == 0 {
        Seq::empty()
    } else if exists|i: int| first_newline(s, i) {
        let i = choose|i: int| first_newline(s, i);
        seq![without_return(s.take(i))] + lines_of(s.skip(i + 1))
    } else {
        seq![s]
    }
}

/// The lines of `s`, without their endings.
pub fn lines(s: &str) -> (out: Vec<String>)
    ensures
        views::of(out@) == lines_of(s@),
{
    let chars = chars_of(s);
    let mut out: Vec<String> = Vec::new();
    let mut from: usize = 0;
    assert(s@.skip(0) =~= s@);
    assert(views::of(out@) + lines_of(s@) =~= lines_of(s@));
    while from < chars.len()
        invariant
            chars@ == s@,
            from <= chars.len(),
            lines_of(s@) == views::of(out@) + lines_of(s@.skip(from as int)),
        decreases chars.len() - from,
    {
        let ghost rest = s@.skip(from as int);
        let mut i: usize = from;
        while i < chars.len() && chars[i] != '\n'
            invariant
                from <= i <= chars.len(),
                forall|j: int| from <= j < i ==> chars@[j] != '\n',
            decreases chars.len() - i,
        {
            i = i + 1;
        }
        let ghost before = out@;
        if i == chars.len() {
            proof {
                assert forall|k: int| !first_newline(rest, k) by {
                    if first_newline(rest, k) {
                        assert(rest[k] == chars@[k + from]);
                    }
                }
                assert(s@.subrange(from as int, i as int) =~= rest);
                assert(s@.skip(i as int).len() == 0);
            }
            let line = text_of(&chars, from, i);
            out.push(line);
            proof {
                assert(views::of(out@) =~= views::of(before) + seq![rest]);
                assert(views::of(out@) + Seq::<Seq<char>>::empty() =~= views::of(out@));
            }
            from = i;
        } else {
            let end: usize = if i > from && chars[i - 1] == '\r' {
                i - 1
            } else {
                i
            };
            let line = text_of(&chars, from, end);
            out.push(line);
            proof {
                assert(first_newline(rest, i - from)) by {
                    assert(rest[i - from] == chars@[i as int]);
                    assert forall|j: int| 0 <= j < i - from implies rest[j] != '\n' by {
                        assert(rest[j] == chars@[j + from]);
                    }
                }
                let k = choose|k: int| first_newline(rest, k);
                assert(k == i - from);
                let ended = rest.take(k);
                assert(rest.skip(k + 1) =~= s@.skip(i + 1));
                if end < i {
                    assert(ended.last() == '\r');
                    assert(ended.drop_last() =~= s@.subrange(from as int, end as int));
                } else {
                    if ended.len() > 0 {
                        assert(ended.last() == chars@[i - 1]);
                    }
                    assert(ended =~= s@.subrange(from as int, end as int));
                }
                assert(line@ == without_return(ended));
                assert(views::of(out@) =~= views::of(before) + seq![without_return(ended)]);
                let tail = lines_of(s@.skip(i + 1));
                assert(views::of(before) + (seq![without_return(ended)] + tail) =~= views::of(out@)
                    + tail);
            }
            from = i + 1;
        }
    }
    assert(views::of(out@) + Seq::<Seq<char>>::empty() =~= views::of(out@));
    out
}

/// A line ends at its line feed, and without the carriage return right before that; the lines
/// behind it are those of what follows. What has no line feed is one line, and nothing is none.
pub proof fn law_a_line_ends_at_its_line_feed(line: Seq<char>, rest: Seq<char>)
    requires
        forall|i: int| 0 <= i < line.len() ==> #[trigger] line[i] != '\n',
    ensures
        lines_of(line + seq!['\n'] + rest) == seq![
            if line.len() > 0 && line[line.len() - 1] == '\r' {
                line.take(line.len() - 1)
            } else {
                line
            },
        ] + lines_of(rest),
        lines_of(line) == (if line.len() == 0 {
            Seq::<Seq<char>>::empty()
        } else {
            seq![line]
        }),
{
    let s = line + seq!['\n'] + rest;
    let n = line.len() as int;
    assert(s[n] == '\n');
    assert forall|j: int| 0 <= j < n implies s[j] != '\n' by {
        assert(s[j] == line[j]);
    }
    assert(first_newline(s, n));
    let i = choose|i: int| first_newline(s, i);
    assert(i == n);
    assert(s.take(n) =~= line);
    assert(s.skip(n + 1) =~= rest);
    if n > 0 {
        assert(line.drop_last() =~= line.take(n - 1));
    }
    assert forall|i: int| !first_newline(line, i) by {
        if first_newline(line, i) {
            assert(line[i] != '\n');
        }
    }
}

/// No line holds a line feed.
pub proof fn law_lines_hold_no_line_feed(s: Seq<char>)
    ensures
        forall|k: int, i: int|
            0 <= k < lines_of(s).len() && 0 <= i < lines_of(s)[k].len() ==> #[trigger] lines_of(
                s,
            )[k][i] != '\n',
    decreases s.len(),
{
    if s.len() > 0 {
        if exists|i: int| first_newline(s, i) {
            let n = choose|i: int| first_newline(s, i);
            let rest = s.skip(n + 1);
            law_lines_hold_no_line_feed(rest);
            let all = lines_of(s);
            assert forall|k: int, i: int|
                0 <= k < all.len() && 0 <= i < all[k].len() implies #[trigger] all[k][i] != '\n' by {
                if k == 0 {
                    assert(all[0][i] == s[i]);
                } else {
                    assert(all[k] == lines_of(rest)[k - 1]);
                    assert(lines_of(rest)[k - 1][i] != '\n');
                }
            }
        } else {
            assert forall|i: int| 0 <= i < s.len() implies s[i] != '\n' by {
                if s[i] == '\n' {
                    lemma_first_newline_exists(s, i);
                }
            }
        }
    }
}

/// A text with a line feed has a first one.
proof fn lemma_first_newline_exists(s: Seq<char>, i: int)
    requires
        0 <= i < s.len(),
        s[i] == '\n',
    ensures
        exists|k: int| first_newline(s, k),
    decreases i,
{
    if forall|j: int| 0 <= j < i ==> s[j] != '\n' {
        assert(first_newline(s, i));
    } else {
        let j = choose|j: int| 0 <= j < i && s[j] == '\n';
        lemma_first_newline_exists(s, j);
    }
}

// ==================== Joining ====================

/// The texts one behind the other, with `separator` between each two.
pub open spec fn joined_by(parts: Seq<Seq<char>>, separator: Seq<char>) -> Seq<char>
    decreases parts.len(),
{
    if parts.len() == 0 {
        Seq::empty()
    } else if parts.len() == 1 {
        parts[0]
    } else {
        joined_by(parts.drop_last(), separator) + separator + parts.last()
    }
}

/// The texts `parts[from..to]` joined with `separator` between each two.
pub fn join_range(parts: &Vec<String>, from: usize, to: usize, separator: &str) -> (out: String)
    requires
        from <= to <= parts.len(),
    ensures
        out@ == joined_by(views::of(parts@.subrange(from as int, to as int)), separator@),
{
    let mut out = String::new();
    for i in from..to
        invariant
            from <= to <= parts.len(),
            out@ == joined_by(views::of(parts@.subrange(from as int, i as int)), separator@),
    {
        let ghost done = views::of(parts@.subrange(from as int, i as int));
        let ghost more = views::of(parts@.subrange(from as int, i + 1));
        assert(more.drop_last() =~= done);
        assert(more.last() == parts@[i as int]@);
        if i > from {
            out.append(separator);
        } else {
            assert(Seq::<char>::empty() + parts@[i as int]@ =~= parts@[i as int]@);
        }
        out.append(parts[i].as_str());
    }
    out
}

/// The texts joined with `separator` between each two.
pub fn join(parts: &Vec<String>, separator: &str) -> (out: String)
    ensures
        out@ == joined_by(views::of(parts@), separator@),
{
    assert(parts@.subrange(0, parts@.len() as int) =~= parts@);
    join_range(parts, 0, parts.len(), separator)
}

/// Joining, taken from the front.
proof fn lemma_joined_from_front(
    first: Seq<char>,
    rest: Seq<Seq<char>>,
    separator: Seq<char>,
)
    requires
        rest.len() > 0,
    ensures
        joined_by(seq![first] + rest, separator) == first + separator + joined_by(rest, separator),
    decreases rest.len(),
{
    let all = seq![first] + rest;
    assert(all.last() == rest.last());
    if rest.len() == 1 {
        reveal_with_fuel(joined_by, 2);
        assert(all.drop_last() =~= seq![first]);
    } else {
        assert(all.drop_last() =~= seq![first] + rest.drop_last());
        lemma_joined_from_front(first, rest.drop_last(), separator);
        assert(joined_by(all, separator) =~= first + separator + joined_by(rest, separator));
    }
}

/// Joining two lists is joining each and putting the separator between. One text alone is itself,
/// and nothing is nothing.
pub proof fn law_joining_puts_the_separator_between(
    a: Seq<Seq<char>>,
    b: Seq<Seq<char>>,
    separator: Seq<char>,
)
    ensures
        a.len() == 0 ==> joined_by(a, separator) == Seq::<char>::empty(),
        a.len() == 1 ==> joined_by(a, separator) == a[0],
        a.len() > 0 && b.len() > 0 ==> joined_by(a + b, separator) == joined_by(a, separator)
            + separator + joined_by(b, separator),
    decreases a.len(),
{
    if a.len() > 0 && b.len() > 0 {
        let rest = a.skip(1);
        assert(a =~= seq![a[0]] + rest);
        if rest.len() == 0 {
            lemma_joined_from_front(a[0], b, separator);
            assert(a + b =~= seq![a[0]] + b);
        } else {
            law_joining_puts_the_separator_between(rest, b, separator);
            lemma_joined_from_front(a[0], rest + b, separator);
            lemma_joined_from_front(a[0], rest, separator);
            assert(a + b =~= seq![a[0]] + (rest + b));
            assert(joined_by(a + b, separator) =~= joined_by(a, separator) + separator
                + joined_by(b, separator));
        }
    }
}

/// A carriage return and a line feed stand in `s` at position `i`.
pub open spec fn return_feed_at(s: Seq<char>, i: int) -> bool {
    0 <= i < s.len() - 1 && s[i] == '\r' && s[i + 1] == '\n'
}

/// Cutting a text into its lines and joining them with line feeds gives the text back, where no
/// line ends in a carriage return and a line feed, and the last line goes without an ending.
pub proof fn law_lines_join_to_the_text(s: Seq<char>)
    requires
        forall|i: int| !return_feed_at(s, i),
        s.len() > 0 ==> s.last() != '\n',
    ensures
        joined_by(lines_of(s), seq!['\n']) == s,
    decreases s.len(),
{
    if s.len() > 0 {
        if exists|i: int| first_newline(s, i) {
            let i = choose|i: int| first_newline(s, i);
            let rest = s.skip(i + 1);
            assert(s.last() == s[s.len() - 1]);
            assert(rest.len() > 0);
            assert(rest.last() == s.last());
            assert forall|j: int| !return_feed_at(rest, j) by {
                assert(!return_feed_at(s, j + i + 1));
            }
            law_lines_join_to_the_text(rest);
            assert(lines_of(rest).len() > 0);
            if s.take(i).len() > 0 {
                assert(!return_feed_at(s, i - 1));
                assert(s.take(i).last() == s[i - 1]);
            }
            assert(without_return(s.take(i)) == s.take(i));
            lemma_joined_from_front(s.take(i), lines_of(rest), seq!['\n']);
            assert(s.take(i) + seq!['\n'] + rest =~= s);
        }
    }
}

// ==================== White space ====================

/// The characters with the Unicode property `White_Space`.
pub open spec fn is_white_space(c: char) -> bool {
    ||| '\u{9}' <= c <= '\u{d}'
    ||| c == '\u{20}'
    ||| c == '\u{85}'
    ||| c == '\u{a0}'
    ||| c == '\u{1680}'
    ||| '\u{2000}' <= c <= '\u{200a}'
    ||| c == '\u{2028}'
    ||| c == '\u{2029}'
    ||| c == '\u{202f}'
    ||| c == '\u{205f}'
    ||| c == '\u{3000}'
}

/// Whether `c` has the Unicode property `White_Space`.
pub fn white_space(c: char) -> (b: bool)
    ensures
        b == is_white_space(c),
{
    ('\u{9}' <= c && c <= '\u{d}') || c == '\u{20}' || c == '\u{85}' || c == '\u{a0}' || c
        == '\u{1680}' || ('\u{2000}' <= c && c <= '\u{200a}') || c == '\u{2028}' || c
        == '\u{2029}' || c == '\u{202f}' || c == '\u{205f}' || c == '\u{3000}'
}

/// `s` without the white space in front.
pub open spec fn trimmed_start(s: Seq<char>) -> Seq<char>
    decreases s.len(),
{
    if s.len() > 0 && is_white_space(s[0]) {
        trimmed_start(s.skip(1))
    } else {
        s
    }
}

/// `s` without the white space behind.
pub open spec fn trimmed_end(s: Seq<char>) -> Seq<char>
    decreases s.len(),
{
    if s.len() > 0 && is_white_space(s.last()) {
        trimmed_end(s.drop_last())
    } else {
        s
    }
}

/// `s` without the white space in front and behind.
pub open spec fn trimmed(s: Seq<char>) -> Seq<char> {
    trimmed_end(trimmed_start(s))
}

/// Nothing of `s` but white space.
pub open spec fn is_blank(s: Seq<char>) -> bool {
    forall|i: int| 0 <= i < s.len() ==> is_white_space(#[trigger] s[i])
}

/// A text is blank exactly where trimming leaves nothing of it.
pub proof fn lemma_blank_is_trimmed_away(s: Seq<char>)
    ensures
        is_blank(s) <==> trimmed(s).len() == 0,
{
    lemma_trimmed_start(s);
    lemma_trimmed_end(trimmed_start(s));
    let t = trimmed_start(s);
    if is_blank(s) {
        if t.len() > 0 {
            assert(t[0] == s[s.len() - t.len()]);
        }
    } else {
        if t.len() == 0 {
            assert forall|i: int| 0 <= i < s.len() implies is_white_space(#[trigger] s[i]) by {}
        }
        assert(t.len() > 0);
        if trimmed(s).len() == 0 {
            assert(is_white_space(t[0]));
        }
    }
}

/// Trimming in front cuts off white space only, and leaves nothing of it in front.
proof fn lemma_trimmed_start(s: Seq<char>)
    ensures
        trimmed_start(s).len() <= s.len(),
        trimmed_start(s) == s.skip(s.len() - trimmed_start(s).len()),
        trimmed_start(s).len() > 0 ==> !is_white_space(trimmed_start(s)[0]),
        forall|i: int|
            0 <= i < s.len() - trimmed_start(s).len() ==> is_white_space(#[trigger] s[i]),
    decreases s.len(),
{
    if s.len() > 0 && is_white_space(s[0]) {
        let rest = s.skip(1);
        lemma_trimmed_start(rest);
        assert(trimmed_start(s) =~= s.skip(s.len() - trimmed_start(s).len()));
        assert forall|i: int| 0 <= i < s.len() - trimmed_start(s).len() implies is_white_space(
            #[trigger] s[i],
        ) by {
            if i > 0 {
                assert(s[i] == rest[i - 1]);
            }
        }
    } else {
        assert(s.skip(0) =~= s);
    }
}

/// Trimming behind cuts off white space only, and leaves nothing of it behind.
proof fn lemma_trimmed_end(s: Seq<char>)
    ensures
        trimmed_end(s).len() <= s.len(),
        trimmed_end(s) == s.take(trimmed_end(s).len() as int),
        trimmed_end(s).len() > 0 ==> !is_white_space(trimmed_end(s).last()),
        forall|i: int| trimmed_end(s).len() <= i < s.len() ==> is_white_space(#[trigger] s[i]),
    decreases s.len(),
{
    if s.len() > 0 && is_white_space(s.last()) {
        let rest = s.drop_last();
        lemma_trimmed_end(rest);
        assert(trimmed_end(s) =~= s.take(trimmed_end(s).len() as int));
        assert forall|i: int| trimmed_end(s).len() <= i < s.len() implies is_white_space(
            #[trigger] s[i],
        ) by {
            if i < s.len() - 1 {
                assert(s[i] == rest[i]);
            }
        }
    } else {
        assert(s.take(s.len() as int) =~= s);
    }
}

/// The first position at or behind `from` whose character is no white space.
fn skip_white_space(chars: &Vec<char>, from: usize) -> (to: usize)
    requires
        from <= chars.len(),
    ensures
        from <= to <= chars.len(),
        trimmed_start(chars@.skip(from as int)) == chars@.skip(to as int),
{
    let mut i: usize = from;
    while i < chars.len() && white_space(chars[i])
        invariant
            from <= i <= chars.len(),
            trimmed_start(chars@.skip(from as int)) == trimmed_start(chars@.skip(i as int)),
        decreases chars.len() - i,
    {
        assert(chars@.skip(i as int).skip(1) =~= chars@.skip(i + 1));
        i = i + 1;
    }
    i
}

/// `s` without the white space in front and behind.
pub fn trim(s: &str) -> (out: String)
    ensures
        out@ == trimmed(s@),
{
    let chars = chars_of(s);
    let from: usize = skip_white_space(&chars, 0);
    assert(s@.skip(0) =~= s@);
    let mut to: usize = chars.len();
    assert(chars@.subrange(from as int, to as int) =~= chars@.skip(from as int));
    while from < to && white_space(chars[to - 1])
        invariant
            from <= to <= chars.len(),
            trimmed_end(chars@.skip(from as int)) == trimmed_end(
                chars@.subrange(from as int, to as int),
            ),
        decreases to,
    {
        assert(chars@.subrange(from as int, to as int).drop_last() =~= chars@.subrange(
            from as int,
            to - 1,
        ));
        to = to - 1;
    }
    text_of(&chars, from, to)
}

/// What stands in front of the first white space of `s`.
pub open spec fn until_white_space(s: Seq<char>) -> Seq<char>
    decreases s.len(),
{
    if s.len() > 0 && !is_white_space(s[0]) {
        seq![s[0]] + until_white_space(s.skip(1))
    } else {
        Seq::empty()
    }
}

/// The first word of `s`, where words are parted by white space. Empty where `s` has no word.
pub open spec fn first_word_of(s: Seq<char>) -> Seq<char> {
    until_white_space(trimmed_start(s))
}

/// The first word of `s`, where words are parted by white space. Empty where `s` has no word.
pub fn first_word(s: &str) -> (word: String)
    ensures
        word@ == first_word_of(s@),
{
    let chars = chars_of(s);
    let from: usize = skip_white_space(&chars, 0);
    assert(s@.skip(0) =~= s@);
    let mut i: usize = from;
    assert(chars@.subrange(from as int, from as int) + until_white_space(chars@.skip(from as int))
        =~= until_white_space(chars@.skip(from as int)));
    while i < chars.len() && !white_space(chars[i])
        invariant
            from <= i <= chars.len(),
            until_white_space(chars@.skip(from as int)) == chars@.subrange(from as int, i as int)
                + until_white_space(chars@.skip(i as int)),
        decreases chars.len() - i,
    {
        proof {
            let rest = chars@.skip(i as int);
            assert(rest.skip(1) =~= chars@.skip(i + 1));
            let tail = until_white_space(chars@.skip(i + 1));
            assert(chars@.subrange(from as int, i as int) + (seq![rest[0]] + tail)
                =~= chars@.subrange(from as int, i + 1) + tail);
        }
        i = i + 1;
    }
    assert(chars@.subrange(from as int, i as int) + Seq::<char>::empty() =~= chars@.subrange(
        from as int,
        i as int,
    ));
    text_of(&chars, from, i)
}

/// Trimming cuts white space off both ends and nothing else: of what is left neither the first nor
/// the last character is white space.
pub proof fn law_trimming_cuts_white_space_off(s: Seq<char>)
    ensures
        trimmed(s).len() > 0 ==> !is_white_space(trimmed(s)[0]) && !is_white_space(
            trimmed(s)[trimmed(s).len() - 1],
        ),
        exists|before: Seq<char>, behind: Seq<char>|
            {
                &&& s == #[trigger] (before + trimmed(s) + behind)
                &&& forall|i: int| 0 <= i < before.len() ==> is_white_space(#[trigger] before[i])
                &&& forall|i: int| 0 <= i < behind.len() ==> is_white_space(#[trigger] behind[i])
            },
{
    lemma_trimmed_start(s);
    let t = trimmed_start(s);
    lemma_trimmed_end(t);
    let out = trimmed(s);
    let before = s.take(s.len() - t.len());
    let behind = t.skip(out.len() as int);
    assert(s =~= before + out + behind);
    assert forall|i: int| 0 <= i < behind.len() implies is_white_space(#[trigger] behind[i]) by {
        assert(behind[i] == t[i + out.len()]);
    }
    if out.len() > 0 {
        assert(out[0] == t[0]);
    }
}

proof fn lemma_until_white_space(s: Seq<char>)
    ensures
        until_white_space(s).len() <= s.len(),
        until_white_space(s) == s.take(until_white_space(s).len() as int),
        forall|i: int| 0 <= i < until_white_space(s).len() ==> !is_white_space(#[trigger] s[i]),
        until_white_space(s).len() < s.len() ==> is_white_space(
            s[until_white_space(s).len() as int],
        ),
    decreases s.len(),
{
    if s.len() > 0 && !is_white_space(s[0]) {
        let rest = s.skip(1);
        lemma_until_white_space(rest);
        let out = until_white_space(s);
        assert(out =~= s.take(out.len() as int));
        assert forall|i: int| 0 <= i < out.len() implies !is_white_space(#[trigger] s[i]) by {
            if i > 0 {
                assert(s[i] == rest[i - 1]);
            }
        }
    } else {
        assert(s.take(0) =~= Seq::<char>::empty());
    }
}

/// The first word holds no white space. Before it there is nothing but white space, and behind it
/// comes white space or the end. It is empty only where there is nothing but white space.
pub proof fn law_the_first_word_stands_first(s: Seq<char>)
    ensures
        forall|i: int|
            0 <= i < first_word_of(s).len() ==> !is_white_space(#[trigger] first_word_of(s)[i]),
        first_word_of(s).len() == 0 ==> forall|i: int|
            0 <= i < s.len() ==> is_white_space(#[trigger] s[i]),
        exists|before: Seq<char>, behind: Seq<char>|
            {
                &&& s == #[trigger] (before + first_word_of(s) + behind)
                &&& forall|i: int| 0 <= i < before.len() ==> is_white_space(#[trigger] before[i])
                &&& behind.len() > 0 ==> is_white_space(behind[0])
            },
{
    lemma_trimmed_start(s);
    let t = trimmed_start(s);
    lemma_until_white_space(t);
    let word = first_word_of(s);
    let before = s.take(s.len() - t.len());
    let behind = t.skip(word.len() as int);
    assert(s =~= before + word + behind);
    assert forall|i: int| 0 <= i < word.len() implies !is_white_space(#[trigger] word[i]) by {
        assert(word[i] == t[i]);
    }
}

/// What stands between white space, or nothing, in front and white space, or the end, behind is the
/// first word.
pub proof fn law_the_first_word_is_found(before: Seq<char>, word: Seq<char>, behind: Seq<char>)
    requires
        forall|i: int| 0 <= i < before.len() ==> is_white_space(#[trigger] before[i]),
        forall|i: int| 0 <= i < word.len() ==> !is_white_space(#[trigger] word[i]),
        word.len() > 0,
        behind.len() > 0 ==> is_white_space(behind[0]),
    ensures
        first_word_of(before + word + behind) == word,
{
    let s = before + word + behind;
    lemma_trimmed_start(s);
    let t = trimmed_start(s);
    let n = s.len() - t.len();
    assert(s[before.len() as int] == word[0]);
    if n > before.len() {
        assert(is_white_space(s[before.len() as int]));
    }
    if n < before.len() {
        assert(t[0] == s[n]);
        assert(s[n] == before[n]);
    }
    assert(t =~= word + behind);
    lemma_until_white_space(t);
    let found = until_white_space(t);
    if found.len() < word.len() {
        assert(t[found.len() as int] == word[found.len() as int]);
    }
    if found.len() > word.len() {
        assert(t[word.len() as int] == behind[0]);
    }
    assert(found =~= word);
}

// ==================== Numbers ====================

/// The decimal digit of a value below ten.
pub open spec fn digit_of(d: int) -> char {
    (('0' as u32) + d) as char
}

/// A natural number in decimal, without leading zeros.
pub open spec fn decimal_of(n: nat) -> Seq<char>
    decreases n,
{
    if n < 10 {
        seq![digit_of(n as int)]
    } else {
        decimal_of(n / 10).push(digit_of((n % 10) as int))
    }
}

/// An integer in decimal, with a minus sign in front where it is negative.
pub open spec fn signed_decimal_of(n: int) -> Seq<char> {
    if n < 0 {
        seq!['-'] + decimal_of((-n) as nat)
    } else {
        decimal_of(n as nat)
    }
}

/// The decimal digit of `d`.
fn digit(d: u128) -> (c: char)
    requires
        d < 10,
    ensures
        c == digit_of(d as int),
{
    if d == 0 {
        '0'
    } else if d == 1 {
        '1'
    } else if d == 2 {
        '2'
    } else if d == 3 {
        '3'
    } else if d == 4 {
        '4'
    } else if d == 5 {
        '5'
    } else if d == 6 {
        '6'
    } else if d == 7 {
        '7'
    } else if d == 8 {
        '8'
    } else {
        '9'
    }
}

/// `n` in decimal.
pub fn decimal(n: u128) -> (out: String)
    ensures
        out@ == decimal_of(n as nat),
    decreases n,
{
    if n < 10 {
        let mut out = String::new();
        out.push(digit(n));
        out
    } else {
        let mut out = decimal(n / 10);
        out.push(digit(n % 10));
        out
    }
}

/// `n` in decimal, with a minus sign in front where it is negative.
pub fn signed_decimal(n: i32) -> (out: String)
    ensures
        out@ == signed_decimal_of(n as int),
{
    if n < 0 {
        let magnitude: i64 = -(n as i64);
        proof {
            reveal_strlit("-");
            assert("-"@ =~= seq!['-']);
        }
        joined("-", decimal(magnitude as u128).as_str())
    } else {
        decimal(n as u128)
    }
}

/// The number that a row of digits stands for.
pub open spec fn read_decimal(digits: Seq<char>) -> int
    decreases digits.len(),
{
    if digits.len() == 0 {
        0
    } else {
        10 * read_decimal(digits.drop_last()) + (digits.last() as int - '0' as int)
    }
}

/// A number in decimal is a row of digits that reads back as the number, and has no zero in front
/// unless it is zero.
pub proof fn law_a_number_reads_back(n: nat)
    ensures
        read_decimal(decimal_of(n)) == n,
        decimal_of(n).len() > 0,
        forall|i: int|
            0 <= i < decimal_of(n).len() ==> '0' <= #[trigger] decimal_of(n)[i] <= '9',
        n > 0 ==> decimal_of(n)[0] != '0',
        n == 0 ==> decimal_of(n) == seq!['0'],
    decreases n,
{
    reveal_with_fuel(read_decimal, 2);
    if n < 10 {
        assert(decimal_of(n).drop_last() =~= Seq::<char>::empty());
    } else {
        law_a_number_reads_back(n / 10);
        let out = decimal_of(n);
        assert(out.drop_last() =~= decimal_of(n / 10));
        assert forall|i: int| 0 <= i < out.len() implies '0' <= #[trigger] out[i] <= '9' by {
            if i < out.len() - 1 {
                assert(out[i] == decimal_of(n / 10)[i]);
            }
        }
    }
}

/// A negative number has a minus sign in front, and is else written as without it.
pub proof fn law_a_negative_number_has_its_sign(n: int)
    ensures
        n >= 0 ==> read_decimal(signed_decimal_of(n)) == n,
        n < 0 ==> signed_decimal_of(n)[0] == '-' && read_decimal(signed_decimal_of(n).skip(1))
            == -n,
{
    if n >= 0 {
        law_a_number_reads_back(n as nat);
    } else {
        law_a_number_reads_back((-n) as nat);
        assert(signed_decimal_of(n).skip(1) =~= decimal_of((-n) as nat));
    }
}

// ==================== Single characters ====================

/// How many characters the text has.
pub fn char_count(s: &str) -> (n: usize)
    ensures
        n == s@.len(),
{
    chars_of(s).len()
}

/// `s` with `c` put in behind its first `i` characters.
pub fn insert_at(s: &str, i: usize, c: char) -> (out: String)
    requires
        i <= s@.len(),
    ensures
        out@ == s@.insert(i as int, c),
{
    let chars = chars_of(s);
    let mut out = text_of(&chars, 0, i);
    out.push(c);
    push_range(&mut out, &chars, i, chars.len());
    assert(out@ =~= s@.insert(i as int, c));
    out
}

/// `s` without the character behind its first `i` characters.
pub fn remove_at(s: &str, i: usize) -> (out: String)
    requires
        i < s@.len(),
    ensures
        out@ == s@.remove(i as int),
{
    let chars = chars_of(s);
    let end: usize = chars.len();
    let mut out = text_of(&chars, 0, i);
    push_range(&mut out, &chars, i + 1, end);
    assert(out@ =~= s@.remove(i as int));
    out
}

} // verus!
