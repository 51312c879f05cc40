//! Which runways a broadcast names for landing and for take-off.

use crate::re::{captures, group_views, regex_captures, regex_replaced, replace_all};
use crate::text::{
    chars_of, is_space, push_str, space, string_of, string_views, to_uppercase, trim, trimmed,
    uppercase, without_spaces,
};
use vstd::prelude::*;

verus! {

/// One to three runway identifiers: two digits each, with `L`, `R` or `C`
/// behind them or the word for it, and `AND` or `OR` between them if at all.
pub const IDENT_EXPR: &'static str =
    r"(\d{2}(?:[LRC]|\s(?:LEFT|RIGHT|CENTER))?)(?:\s(?:(?:AND|OR)\s)?(\d{2}(?:[LRC]|\s(?:LEFT|RIGHT|CENTER))?))?(?:\s(?:(?:AND|OR)\s)?(\d{2}(?:[LRC]|\s(?:LEFT|RIGHT|CENTER))?))?";

pub const WHITESPACE: &'static str = r"\s+";

pub const SPECIAL: &'static str = r"[^A-Z0-9\s]";

pub const COLLAPSE_NUMS: &'static str = r"(\d)\s+(\d)";

pub const RUNWAY: &'static str = r"(?:RUNWAY|RWY)S?\s";

pub const ARRIVAL_BEFORE: &'static str = r"(?:(?:APPROACH|ARRIVAL|LANDING|LDG)\s)+(?:RUNWAY|RWY)S?\s";

pub const ARRIVAL_AFTER: &'static str = r"\sFOR\s(?:ARRIVAL|LANDING|LDG|APPROACH)";

pub const DEPARTURE_BEFORE: &'static str = r"(?:TAKEOFF|DEPARTURE|DEPARTING|DEP)\s(?:RUNWAY|RWY)S?\s";

pub const DEPARTURE_AFTER: &'static str = r"\sFOR\s(?:TAKEOFF|DEPARTURE|DEP)";

pub const IN_USE_AFTER: &'static str = r"\sIN\sUSE";

pub const IN_USE_BEFORE: &'static str = r"(?:RUNWAY|RWY)S?\sIN\sUSE\s";

pub const BOTH_BEFORE: &'static str =
    r"(?:APPROACH|ARRIVAL|LANDING|LDG)\sAND\s(?:TAKEOFF|DEPARTURE|DEPARTING|DEP)\s(?:RUNWAY|RWY)S?\s";

/// The phrases that name runways for landing.
pub open spec fn arrival_patterns() -> Seq<Seq<char>> {
    seq![
        ARRIVAL_BEFORE@ + IDENT_EXPR@,
        RUNWAY@ + IDENT_EXPR@ + ARRIVAL_AFTER@,
        RUNWAY@ + IDENT_EXPR@ + IN_USE_AFTER@,
        IN_USE_BEFORE@ + IDENT_EXPR@,
        BOTH_BEFORE@ + IDENT_EXPR@,
    ]
}

/// The phrases that name runways for take-off. A runway that is plainly "in
/// use" counts for landing and for take-off alike.
pub open spec fn departure_patterns() -> Seq<Seq<char>> {
    seq![
        DEPARTURE_BEFORE@ + IDENT_EXPR@,
        RUNWAY@ + IDENT_EXPR@ + DEPARTURE_AFTER@,
        RUNWAY@ + IDENT_EXPR@ + IN_USE_AFTER@,
        IN_USE_BEFORE@ + IDENT_EXPR@,
        BOTH_BEFORE@ + IDENT_EXPR@,
    ]
}

fn pattern(before: &str, after: &str) -> (p: String)
    ensures
        p@ == before@ + IDENT_EXPR@ + after@,
{
    let mut p = String::new();
    push_str(&mut p, before);
    push_str(&mut p, IDENT_EXPR);
    push_str(&mut p, after);
    assert(p@ =~= before@ + IDENT_EXPR@ + after@);
    p
}

fn arrival_bank() -> (v: Vec<String>)
    ensures
        string_views(v@) == arrival_patterns(),
{
    let v = vec![
        pattern(ARRIVAL_BEFORE, ""),
        pattern(RUNWAY, ARRIVAL_AFTER),
        pattern(RUNWAY, IN_USE_AFTER),
        pattern(IN_USE_BEFORE, ""),
        pattern(BOTH_BEFORE, ""),
    ];
    proof {
        reveal_strlit("");
        assert(""@ =~= Seq::<char>::empty());
        assert(string_views(v@) =~= arrival_patterns()) by {
            assert(v@[0]@ =~= ARRIVAL_BEFORE@ + IDENT_EXPR@);
            assert(v@[3]@ =~= IN_USE_BEFORE@ + IDENT_EXPR@);
            assert(v@[4]@ =~= BOTH_BEFORE@ + IDENT_EXPR@);
        }
    }
    v
}

fn departure_bank() -> (v: Vec<String>)
    ensures
        string_views(v@) == departure_patterns(),
{
    let v = vec![
        pattern(DEPARTURE_BEFORE, ""),
        pattern(RUNWAY, DEPARTURE_AFTER),
        pattern(RUNWAY, IN_USE_AFTER),
        pattern(IN_USE_BEFORE, ""),
        pattern(BOTH_BEFORE, ""),
    ];
    proof {
        reveal_strlit("");
        assert(""@ =~= Seq::<char>::empty());
        assert(string_views(v@) =~= departure_patterns()) by {
            assert(v@[0]@ =~= DEPARTURE_BEFORE@ + IDENT_EXPR@);
            assert(v@[3]@ =~= IN_USE_BEFORE@ + IDENT_EXPR@);
            assert(v@[4]@ =~= BOTH_BEFORE@ + IDENT_EXPR@);
        }
    }
    v
}

/// The first `n` items of `s`, or all of it where it is shorter.
pub open spec fn at_most(s: Seq<char>, n: int) -> Seq<char> {
    if s.len() <= n {
        s
    } else {
        s.subrange(0, n)
    }
}

/// A runway identifier in its short form: without white space, and cut
/// behind its third character. `26 LEFT` becomes `26L`.
pub open spec fn spec_runway_ident(ident: Seq<char>) -> Seq<char> {
    at_most(without_spaces(ident), 3)
}

/// Brings a runway identifier into its short form.
pub fn normalize_runway_ident(ident: &str) -> (r: String)
    ensures
        r@ == spec_runway_ident(ident@),
        r@.len() <= 3,
        forall|i: int| 0 <= i < r@.len() ==> !is_space(#[trigger] r@[i]),
{
    let v = chars_of(ident);
    let mut kept: Vec<char> = Vec::new();
    let mut i: usize = 0;
    assert(v@.subrange(0, 0) =~= Seq::<char>::empty());
    while i < v.len()
        invariant
            i <= v.len(),
            kept@ == without_spaces(v@.subrange(0, i as int)),
            forall|k: int| 0 <= k < kept@.len() ==> !is_space(#[trigger] kept@[k]),
        decreases v.len() - i,
    {
        assert(v@.subrange(0, i + 1).drop_last() =~= v@.subrange(0, i as int));
        if !space(v[i]) {
            kept.push(v[i]);
        }
        i += 1;
    }
    assert(v@.subrange(0, i as int) =~= v@);
    if kept.len() > 3 {
        let mut short: Vec<char> = Vec::new();
        short.push(kept[0]);
        short.push(kept[1]);
        short.push(kept[2]);
        assert(short@ =~= kept@.subrange(0, 3));
        string_of(&short)
    } else {
        string_of(&kept)
    }
}

/// `text` after every match of `pattern` was replaced by `rep`; `text`
/// itself where `pattern` is no valid regular expression.
pub open spec fn replaced(pattern: Seq<char>, text: Seq<char>, rep: Seq<char>) -> Seq<char> {
    match regex_replaced(pattern, text, rep) {
        Some(r) => r,
        None => text,
    }
}

/// How a substitution counts: where the pattern could not be compiled, the
/// text stays as it was.
pub fn substituted(outcome: Option<String>, text: String) -> (r: String)
    ensures
        r@ == match outcome {
            Some(s) => s@,
            None => text@,
        },
{
    match outcome {
        Some(s) => s,
        None => text,
    }
}

fn replace(pattern: &str, text: String, rep: &str) -> (r: String)
    ensures
        r@ == replaced(pattern@, text@, rep@),
{
    let outcome = replace_all(pattern, text.as_str(), rep);
    substituted(outcome, text)
}

/// The text of a broadcast in the form that the phrases are looked for in:
/// in upper case, without anything but capitals, digits and white space,
/// every run of white space turned into one blank and, if `collapse_nums` is
/// set, every two digits with only white space between them drawn together;
/// at last, without white space at its ends.
pub open spec fn spec_normalized(text: Seq<char>, collapse_nums: bool) -> Seq<char> {
    let upper = uppercase(text);
    let plain = replaced(SPECIAL@, upper, ""@);
    let spaced = replaced(WHITESPACE@, plain, " "@);
    let joined = if collapse_nums {
        replaced(COLLAPSE_NUMS@, spaced, "$1$2"@)
    } else {
        spaced
    };
    trimmed(joined)
}

/// Brings the text of a broadcast into the form that the phrases are looked
/// for in.
pub fn normalize_atis_text(text: &str, collapse_nums: bool) -> (r: String)
    ensures
        r@ == spec_normalized(text@, collapse_nums),
{
    let text = to_uppercase(text);
    let text = replace(SPECIAL, text, "");
    let text = replace(WHITESPACE, text, " ");
    let text = if collapse_nums {
        replace(COLLAPSE_NUMS, text, "$1$2")
    } else {
        text
    };
    trim(text.as_str())
}

/// `found`, with `ident` behind it unless it is in it already.
pub open spec fn with_ident(found: Seq<Seq<char>>, ident: Seq<char>) -> Seq<Seq<char>> {
    if found.contains(ident) {
        found
    } else {
        found.push(ident)
    }
}

/// `found`, followed by the short forms of what the groups `1..m` of a match
/// have captured, each identifier once.
pub open spec fn collected(
    found: Seq<Seq<char>>,
    groups: Seq<Option<Seq<char>>>,
    m: int,
) -> Seq<Seq<char>>
    decreases m,
{
    if m <= 1 || m > groups.len() {
        found
    } else {
        match groups[m - 1] {
            Some(t) => with_ident(collected(found, groups, m - 1), spec_runway_ident(t)),
            None => collected(found, groups, m - 1),
        }
    }
}

/// The identifiers that the first `n` of `patterns` find in `text`, in the
/// order in which they are found, each once.
pub open spec fn detected(patterns: Seq<Seq<char>>, text: Seq<char>, n: int) -> Seq<Seq<char>>
    decreases n,
{
    if n <= 0 || n > patterns.len() {
        Seq::empty()
    } else {
        match regex_captures(patterns[n - 1], text) {
            Some(groups) => collected(
                detected(patterns, text, n - 1),
                groups,
                groups.len() as int,
            ),
            None => detected(patterns, text, n - 1),
        }
    }
}

fn holds_ident(found: &Vec<String>, ident: &String) -> (b: bool)
    ensures
        b == string_views(found@).contains(ident@),
{
    let mut i: usize = 0;
    while i < found.len()
        invariant
            i <= found.len(),
            forall|k: int| 0 <= k < i ==> (#[trigger] found@[k])@ != ident@,
        decreases found.len() - i,
    {
        if found[i] == *ident {
            assert(string_views(found@)[i as int] == ident@);
            return true;
        }
        i += 1;
    }
    assert forall|k: int| 0 <= k < string_views(found@).len() implies string_views(found@)[k]
        != ident@ by {
        assert(string_views(found@)[k] == found@[k]@);
    }
    false
}

/// Adds to `found` the short forms of what the groups of one match have
/// captured, the group of the whole match left out, each identifier once.
pub fn collect_idents(found: &mut Vec<String>, groups: &Vec<Option<String>>)
    ensures
        string_views(final(found)@) == collected(
            string_views(old(found)@),
            group_views(groups@),
            groups@.len() as int,
        ),
{
    let ghost start = string_views(found@);
    let ghost gs = group_views(groups@);
    let mut m: usize = 1;
    if groups.len() < 1 {
        return ;
    }
    while m < groups.len()
        invariant
            1 <= m <= groups.len(),
            gs == group_views(groups@),
            string_views(found@) == collected(start, gs, m as int),
        decreases groups.len() - m,
    {
        assert(gs[m as int] == crate::text::opt_text(groups@[m as int]));
        match &groups[m] {
            Some(t) => {
                let ident = normalize_runway_ident(t.as_str());
                let ghost before = string_views(found@);
                if !holds_ident(found, &ident) {
                    found.push(ident);
                    assert(string_views(found@) =~= before.push(ident@));
                }
            },
            None => {},
        }
        m += 1;
    }
}

fn detect(bank: &Vec<String>, norm_atis: &str) -> (r: Vec<String>)
    ensures
        string_views(r@) == detected(string_views(bank@), norm_atis@, bank@.len() as int),
{
    let mut found: Vec<String> = Vec::new();
    let ghost patterns = string_views(bank@);
    assert(string_views(found@) =~= Seq::<Seq<char>>::empty());
    let mut n: usize = 0;
    while n < bank.len()
        invariant
            n <= bank.len(),
            patterns == string_views(bank@),
            string_views(found@) == detected(patterns, norm_atis@, n as int),
        decreases bank.len() - n,
    {
        assert(patterns[n as int] == bank@[n as int]@);
        match captures(bank[n].as_str(), norm_atis) {
            Some(groups) => {
                collect_idents(&mut found, &groups);
            },
            None => {},
        }
        n += 1;
    }
    found
}

/// The runways that a broadcast, brought into form, names for landing.
pub fn detect_arrivals(norm_atis: &str) -> (r: Vec<String>)
    ensures
        string_views(r@) == detected(arrival_patterns(), norm_atis@, 5),
{
    let bank = arrival_bank();
    detect(&bank, norm_atis)
}

/// The runways that a broadcast, brought into form, names for take-off.
pub fn detect_departures(norm_atis: &str) -> (r: Vec<String>)
    ensures
        string_views(r@) == detected(departure_patterns(), norm_atis@, 5),
{
    let bank = departure_bank();
    detect(&bank, norm_atis)
}

/// No identifier is found twice.
pub proof fn lemma_detected_distinct(patterns: Seq<Seq<char>>, text: Seq<char>, n: int)
    ensures
        detected(patterns, text, n).no_duplicates(),
    decreases n,
{
    if 0 < n <= patterns.len() {
        lemma_detected_distinct(patterns, text, n - 1);
        match regex_captures(patterns[n - 1], text) {
            Some(groups) => {
                lemma_collected_distinct(
                    detected(patterns, text, n - 1),
                    groups,
                    groups.len() as int,
                );
            },
            None => {},
        }
    }
}

/// Collecting identifiers into a list without repetition leaves it without
/// repetition.
pub proof fn lemma_collected_distinct(
    found: Seq<Seq<char>>,
    groups: Seq<Option<Seq<char>>>,
    m: int,
)
    requires
        found.no_duplicates(),
    ensures
        collected(found, groups, m).no_duplicates(),
    decreases m,
{
    if 1 < m <= groups.len() {
        lemma_collected_distinct(found, groups, m - 1);
    }
}

} // verus!
