//! The filter that picks the printer among discovered devices, and the lookup
//! of its GATT characteristics.
//!
//! A device is taken for a printer when its advertised name contains, in any
//! letter case, `S`, whitespace, one of `Pink`, `Blue`, `White`, `Black`,
//! whitespace, and `Printer`. Letter case is compared under Unicode simple
//! case folding, so that U+017F counts as `S` and U+212A as `K`; whitespace is
//! the Unicode property White_Space.

use vstd::prelude::*;
use crate::text::{chars_of, is_space, is_space_char};

verus! {

/// Whether `c` is the upper-case ASCII letter `upper` in some letter case.
pub open spec fn same_letter(c: char, upper: char) -> bool {
    ||| c == upper
    ||| c as u32 == upper as u32 + 32
    ||| (upper == 'S' && c as u32 == 0x17F)
    ||| (upper == 'K' && c as u32 == 0x212A)
}

/// Whether `word`, given in upper case, stands at `at` in some letter case.
pub open spec fn word_at(s: Seq<char>, at: int, word: Seq<char>) -> bool {
    &&& 0 <= at
    &&& at + word.len() <= s.len()
    &&& forall|k: int| 0 <= k < word.len() ==> same_letter(#[trigger] s[at + k], word[k])
}

/// Whether `s[from..to]` is a non-empty run of whitespace.
pub open spec fn spaces(s: Seq<char>, from: int, to: int) -> bool {
    &&& 0 <= from < to <= s.len()
    &&& forall|k: int| from <= k < to ==> is_space(#[trigger] s[k])
}

/// The letters of `S`.
pub open spec fn word_s() -> Seq<char> {
    seq!['S']
}

/// The letters of `PINK`.
pub open spec fn word_pink() -> Seq<char> {
    seq!['P', 'I', 'N', 'K']
}

/// The letters of `BLUE`.
pub open spec fn word_blue() -> Seq<char> {
    seq!['B', 'L', 'U', 'E']
}

/// The letters of `WHITE`.
pub open spec fn word_white() -> Seq<char> {
    seq!['W', 'H', 'I', 'T', 'E']
}

/// The letters of `BLACK`.
pub open spec fn word_black() -> Seq<char> {
    seq!['B', 'L', 'A', 'C', 'K']
}

/// The letters of `PRINTER`.
pub open spec fn word_printer() -> Seq<char> {
    seq!['P', 'R', 'I', 'N', 'T', 'E', 'R']
}

/// Whether one of the four color names stands at `at` and ends before `end`.
pub open spec fn color_at(s: Seq<char>, at: int, end: int) -> bool {
    ||| (end == at + 4 && word_at(s, at, word_pink()))
    ||| (end == at + 4 && word_at(s, at, word_blue()))
    ||| (end == at + 5 && word_at(s, at, word_white()))
    ||| (end == at + 5 && word_at(s, at, word_black()))
}

/// Whether the printer's name pattern stands in `s` with `S` at `start`, the
/// color in `s[color..color_end]` and `Printer` at `printer`.
pub open spec fn name_match(
    s: Seq<char>,
    start: int,
    color: int,
    color_end: int,
    printer: int,
) -> bool {
    &&& word_at(s, start, word_s())
    &&& spaces(s, start + 1, color)
    &&& color_at(s, color, color_end)
    &&& spaces(s, color_end, printer)
    &&& word_at(s, printer, word_printer())
}

/// Whether the pattern stands in `s` with its `S` at `start`.
pub open spec fn name_match_at(s: Seq<char>, start: int) -> bool {
    exists|color: int, color_end: int, printer: int|
        name_match(s, start, color, color_end, printer)
}

/// Whether `s` is the advertised name of a compatible printer.
pub open spec fn printer_name(s: Seq<char>) -> bool {
    exists|start: int| name_match_at(s, start)
}

fn is_letter(c: char, upper: char) -> (b: bool)
    requires
        'A' <= upper <= 'Z',
    ensures
        b == same_letter(c, upper),
{
    let u: u32 = c as u32;
    let v: u32 = upper as u32;
    c == upper || u == v + 32 || (upper == 'S' && u == 0x17F) || (upper == 'K' && u == 0x212A)
}

/// A letter in any case is no whitespace.
proof fn lemma_letter_is_no_space(c: char, upper: char)
    requires
        'A' <= upper <= 'Z',
        same_letter(c, upper),
    ensures
        !is_space(c),
{
}

fn has_word(s: &Vec<char>, at: usize, word: &[char]) -> (b: bool)
    requires
        at <= s.len(),
        forall|k: int| 0 <= k < word.len() ==> 'A' <= #[trigger] word[k] <= 'Z',
    ensures
        b == word_at(s@, at as int, word@),
{
    let n = s.len();
    let m = word.len();
    if n - at < m {
        return false;
    }
    let mut k: usize = 0;
    while k < m
        invariant
            k <= m,
            m == word.len(),
            n == s.len(),
            at + m <= n,
            forall|j: int| 0 <= j < word.len() ==> 'A' <= #[trigger] word[j] <= 'Z',
            forall|j: int| 0 <= j < k ==> same_letter(#[trigger] s@[at + j], word@[j]),
        decreases m - k,
    {
        if !is_letter(s[at + k], word[k]) {
            proof {
                assert(!same_letter(s@[at + k], word@[k as int]));
            }
            return false;
        }
        k += 1;
    }
    true
}

/// The end of the run of whitespace that starts at `from`.
fn skip_spaces(s: &Vec<char>, from: usize) -> (to: usize)
    requires
        from <= s.len(),
    ensures
        from <= to <= s.len(),
        forall|k: int| from <= k < to ==> is_space(#[trigger] s@[k]),
        to == s.len() || !is_space(s@[to as int]),
{
    let n = s.len();
    let mut to = from;
    while to < n && is_space_char(s[to])
        invariant
            from <= to <= n,
            n == s.len(),
            forall|k: int| from <= k < to ==> is_space(#[trigger] s@[k]),
        decreases n - to,
    {
        to += 1;
    }
    to
}

/// Whether whitespace and then `Printer` follow at `color_end`.
fn has_tail(s: &Vec<char>, color_end: usize) -> (b: bool)
    requires
        color_end <= s.len(),
    ensures
        b == exists|printer: int|
            spaces(s@, color_end as int, printer) && word_at(s@, printer, word_printer()),
{
    let printer = skip_spaces(s, color_end);
    let word: [char; 7] = ['P', 'R', 'I', 'N', 'T', 'E', 'R'];
    assert(word@ =~= word_printer());
    let found = printer > color_end && has_word(s, printer, word.as_slice());
    proof {
        if found {
            assert(spaces(s@, color_end as int, printer as int));
        } else {
            assert forall|other: int|
                !(spaces(s@, color_end as int, other) && word_at(s@, other, word_printer())) by {
                if spaces(s@, color_end as int, other) && word_at(s@, other, word_printer()) {
                    assert(same_letter(s@[other + 0], word_printer()[0]));
                    lemma_run_end(s@, color_end as int, printer as int, other, 'P');
                }
            }
        }
    }
    found
}

/// A run of whitespace that a letter follows ends where whitespace ends.
proof fn lemma_run_end(s: Seq<char>, from: int, to: int, other: int, upper: char)
    requires
        'A' <= upper <= 'Z',
        0 <= from <= to <= s.len(),
        forall|k: int| from <= k < to ==> is_space(#[trigger] s[k]),
        to == s.len() || !is_space(s[to]),
        spaces(s, from, other),
        other < s.len(),
        same_letter(s[other], upper),
    ensures
        other == to,
{
    lemma_letter_is_no_space(s[other], upper);
    if other < to {
        assert(is_space(s[other]));
    } else if to < other {
        assert(is_space(s[to]));
    }
}

/// Whether the pattern stands in `s` with its `S` at `start`.
fn matches_at(s: &Vec<char>, start: usize) -> (b: bool)
    requires
        start < s.len(),
    ensures
        b == name_match_at(s@, start as int),
{
    let ghost t = s@;
    if !is_letter(s[start], 'S') {
        proof {
            assert forall|color: int, color_end: int, printer: int|
                !name_match(t, start as int, color, color_end, printer) by {
                if word_at(t, start as int, word_s()) {
                    assert(same_letter(t[start + 0], word_s()[0]));
                }
            }
        }
        return false;
    }
    let color = skip_spaces(s, start + 1);
    let pink: [char; 4] = ['P', 'I', 'N', 'K'];
    let blue: [char; 4] = ['B', 'L', 'U', 'E'];
    let white: [char; 5] = ['W', 'H', 'I', 'T', 'E'];
    let black: [char; 5] = ['B', 'L', 'A', 'C', 'K'];
    assert(pink@ =~= word_pink());
    assert(blue@ =~= word_blue());
    assert(white@ =~= word_white());
    assert(black@ =~= word_black());
    let some_space = color > start + 1;
    let four = some_space && (has_word(s, color, pink.as_slice()) || has_word(
        s,
        color,
        blue.as_slice(),
    ));
    let five = some_space && (has_word(s, color, white.as_slice()) || has_word(
        s,
        color,
        black.as_slice(),
    ));
    let tail_four = four && has_tail(s, color + 4);
    let tail_five = five && has_tail(s, color + 5);
    let found = tail_four || tail_five;
    proof {
        assert(word_at(t, start as int, word_s())) by {
            assert forall|k: int| 0 <= k < word_s().len() implies same_letter(
                #[trigger] t[start + k],
                word_s()[k],
            ) by {}
        }
        if found {
            if tail_four {
                let printer = choose|printer: int|
                    spaces(t, color + 4, printer) && word_at(t, printer, word_printer());
                assert(name_match(t, start as int, color as int, color + 4, printer));
            } else {
                let printer = choose|printer: int|
                    spaces(t, color + 5, printer) && word_at(t, printer, word_printer());
                assert(name_match(t, start as int, color as int, color + 5, printer));
            }
        } else {
            assert forall|c: int, e: int, p: int| !name_match(t, start as int, c, e, p) by {
                if name_match(t, start as int, c, e, p) {
                    assert(c < t.len());
                    // The color begins with a letter, where the whitespace ends.
                    let first = if word_at(t, c, word_pink()) {
                        'P'
                    } else if word_at(t, c, word_white()) {
                        'W'
                    } else {
                        'B'
                    };
                    assert(same_letter(t[c], first)) by {
                        if word_at(t, c, word_pink()) {
                            assert(same_letter(t[c + 0], word_pink()[0]));
                        }
                        if word_at(t, c, word_blue()) {
                            assert(same_letter(t[c + 0], word_blue()[0]));
                        }
                        if word_at(t, c, word_white()) {
                            assert(same_letter(t[c + 0], word_white()[0]));
                        }
                        if word_at(t, c, word_black()) {
                            assert(same_letter(t[c + 0], word_black()[0]));
                        }
                    }
                    lemma_run_end(t, start + 1, color as int, c, first);
                    assert(spaces(t, e, p) && word_at(t, p, word_printer()));
                }
            }
        }
    }
    found
}

/// Whether `name` is the advertised name of a compatible printer.
pub fn is_printer_name(name: &str) -> (b: bool)
    ensures
        b == printer_name(name@),
{
    let s = chars_of(name);
    let n = s.len();
    let mut start: usize = 0;
    while start < n
        invariant
            start <= n,
            n == s.len(),
            s@ == name@,
            forall|before: int| 0 <= before < start ==> !name_match_at(s@, before),
        decreases n - start,
    {
        if matches_at(&s, start) {
            return true;
        }
        start += 1;
    }
    proof {
        assert forall|any: int| !name_match_at(s@, any) by {
            if any < 0 || any >= n {
                assert forall|c: int, e: int, p: int| !name_match(s@, any, c, e, p) by {}
            }
        }
    }
    false
}

/// Code of `c`, with the upper-case ASCII letters mapped to lower case.
pub open spec fn ascii_lower(c: char) -> u32 {
    if 'A' <= c <= 'Z' {
        (c as u32 + 32) as u32
    } else {
        c as u32
    }
}

/// Whether `a` and `b` are equal but for the case of ASCII letters.
pub open spec fn eq_ignore_ascii_case(a: Seq<char>, b: Seq<char>) -> bool {
    &&& a.len() == b.len()
    &&& forall|k: int| 0 <= k < a.len() ==> ascii_lower(#[trigger] a[k]) == ascii_lower(b[k])
}

/// Index of the first text among `uuids` that is `wanted` but for the case
/// of ASCII letters.
pub open spec fn position_of(uuids: Seq<Seq<char>>, wanted: Seq<char>) -> Option<nat>
    decreases uuids.len(),
{
    if uuids.len() == 0 {
        None
    } else if eq_ignore_ascii_case(uuids[0], wanted) {
        Some(0)
    } else {
        match position_of(uuids.drop_first(), wanted) {
            Some(i) => Some(i + 1),
            None => None,
        }
    }
}

/// The texts of a list of strings.
pub open spec fn texts(list: Seq<String>) -> Seq<Seq<char>> {
    list.map_values(|s: String| s@)
}

/// A position lies within the list.
pub proof fn lemma_position_in_range(uuids: Seq<Seq<char>>, wanted: Seq<char>)
    ensures
        position_of(uuids, wanted) matches Some(i) ==> i < uuids.len() && eq_ignore_ascii_case(
            uuids[i as int],
            wanted,
        ),
    decreases uuids.len(),
{
    if uuids.len() > 0 && !eq_ignore_ascii_case(uuids[0], wanted) {
        lemma_position_in_range(uuids.drop_first(), wanted);
    }
}

proof fn lemma_position_found(uuids: Seq<Seq<char>>, wanted: Seq<char>, at: int)
    requires
        0 <= at < uuids.len(),
        eq_ignore_ascii_case(uuids[at], wanted),
        forall|j: int| 0 <= j < at ==> !eq_ignore_ascii_case(#[trigger] uuids[j], wanted),
    ensures
        position_of(uuids, wanted) == Some(at as nat),
    decreases at,
{
    if at > 0 {
        let rest = uuids.drop_first();
        assert(!eq_ignore_ascii_case(uuids[0], wanted));
        assert forall|j: int| 0 <= j < at - 1 implies !eq_ignore_ascii_case(
            #[trigger] rest[j],
            wanted,
        ) by {
            assert(rest[j] == uuids[j + 1]);
        }
        lemma_position_found(rest, wanted, at - 1);
    }
}

proof fn lemma_position_missing(uuids: Seq<Seq<char>>, wanted: Seq<char>)
    requires
        forall|j: int| 0 <= j < uuids.len() ==> !eq_ignore_ascii_case(#[trigger] uuids[j], wanted),
    ensures
        position_of(uuids, wanted) is None,
    decreases uuids.len(),
{
    if uuids.len() > 0 {
        let rest = uuids.drop_first();
        assert(!eq_ignore_ascii_case(uuids[0], wanted));
        assert forall|j: int| 0 <= j < rest.len() implies !eq_ignore_ascii_case(
            #[trigger] rest[j],
            wanted,
        ) by {
            assert(rest[j] == uuids[j + 1]);
        }
        lemma_position_missing(rest, wanted);
    }
}

fn lower_code(c: char) -> (code: u32)
    ensures
        code == ascii_lower(c),
{
    if 'A' <= c && c <= 'Z' {
        c as u32 + 32
    } else {
        c as u32
    }
}

/// Whether `a` and `b` are equal but for the case of ASCII letters.
pub fn same_ignoring_ascii_case(a: &str, b: &str) -> (same: bool)
    ensures
        same == eq_ignore_ascii_case(a@, b@),
{
    let left = chars_of(a);
    let right = chars_of(b);
    if left.len() != right.len() {
        return false;
    }
    let n = left.len();
    let mut k: usize = 0;
    while k < n
        invariant
            k <= n,
            n == left.len(),
            n == right.len(),
            left@ == a@,
            right@ == b@,
            forall|j: int| 0 <= j < k ==> ascii_lower(#[trigger] left@[j]) == ascii_lower(right@[j]),
        decreases n - k,
    {
        if lower_code(left[k]) != lower_code(right[k]) {
            assert(ascii_lower(a@[k as int]) != ascii_lower(b@[k as int]));
            return false;
        }
        k += 1;
    }
    true
}

/// Index of the first characteristic among `uuids` whose UUID is `wanted`,
/// the case of letters ignored.
pub fn find_characteristic(uuids: &Vec<String>, wanted: &str) -> (r: Option<usize>)
    ensures
        r matches Some(i) ==> i < uuids.len(),
        match r {
            Some(i) => position_of(texts(uuids@), wanted@) == Some(i as nat),
            None => position_of(texts(uuids@), wanted@) is None,
        },
{
    let n = uuids.len();
    let ghost all = texts(uuids@);
    let mut i: usize = 0;
    while i < n
        invariant
            i <= n,
            n == uuids.len(),
            all == texts(uuids@),
            forall|j: int| 0 <= j < i ==> !eq_ignore_ascii_case(#[trigger] all[j], wanted@),
        decreases n - i,
    {
        if same_ignoring_ascii_case(uuids[i].as_str(), wanted) {
            proof {
                assert(all[i as int] == uuids@[i as int]@);
                lemma_position_found(all, wanted@, i as int);
            }
            return Some(i);
        }
        assert(all[i as int] == uuids@[i as int]@);
        i += 1;
    }
    proof {
        lemma_position_missing(all, wanted@);
    }
    None
}

} // verus!
