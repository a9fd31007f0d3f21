//! The brace expansion language of port name patterns.
//!
//! A pattern holds at most one group in braces. The group either lists
//! alternatives separated by commas (`a{b,c}d` gives `abd` and `acd`) or
//! gives an inclusive range of counts (`a{1..3}` gives `a1`, `a2`, `a3`).
use vstd::prelude::*;
use crate::text::{char_is_numeric, decimal, decimal_string, numeric_char, parse_count, parse_count_at, push_char};

verus! {

/// Why a pattern could not be expanded, with the whole pattern.
#[derive(Debug, Clone, PartialEq, Eq)]
pub struct BraceExpansionError {
    pub str: String,
    pub message: String,
}

impl BraceExpansionError {
    /// The error as one line of text.
    pub fn describe(&self) -> (r: String)
        ensures
            r@ == "Failed to perform brace expansion to "@ + self.str@ + ": "@ + self.message@,
    {
        let r = String::from_str("Failed to perform brace expansion to ");
        let r = r.concat(self.str.as_str());
        let r = r.concat(": ");
        r.concat(self.message.as_str())
    }
}

/// The reason given for a `}` before any `{`.
pub open spec fn msg_close_first() -> Seq<char> {
    "Cannot have closing brace before opening brace"@
}

/// The reason given for a `{` after the group.
pub open spec fn msg_second_open() -> Seq<char> {
    "Can only have one opening brace to expand"@
}

/// The reason given for a `{` inside the group.
pub open spec fn msg_nested_open() -> Seq<char> {
    "Cannot open brace within an open brace"@
}

/// The reason given for a group that the pattern does not close.
pub open spec fn msg_unclosed() -> Seq<char> {
    "Must close open brace"@
}

/// The reason given for a character other than a digit or `}` in the end of a range.
pub open spec fn msg_not_numeric() -> Seq<char> {
    "Range must be numeric"@
}

/// The reason given for a range start that is not a count.
pub open spec fn msg_bad_begin() -> Seq<char> {
    "Cannot parse range begin"@
}

/// The reason given for a range end that is not a count.
pub open spec fn msg_bad_end() -> Seq<char> {
    "Cannot parse range end"@
}

/// The reason given for a range whose start exceeds its end.
pub open spec fn msg_decreasing() -> Seq<char> {
    "Ranges must be increasing"@
}

/// Whether `c` opens or closes a group.
pub open spec fn is_brace(c: char) -> bool {
    c == '{' || c == '}'
}

/// Whether a pattern holds neither `{` nor `}`.
pub open spec fn brace_free(s: Seq<char>) -> bool {
    forall|k: int| 0 <= k < s.len() ==> !is_brace(#[trigger] s[k])
}

/// A scan of `s` for a brace, started at `from`, stops at `i`.
pub open spec fn brace_stop(s: Seq<char>, from: int, i: int) -> bool {
    &&& from <= i <= s.len()
    &&& forall|k: int| from <= k < i ==> !is_brace(#[trigger] s[k])
    &&& i < s.len() ==> is_brace(s[i])
}

/// The index of the first brace of `s` at or after `from`, or `s.len()`.
pub open spec fn next_brace(s: Seq<char>, from: int) -> int {
    choose|i: int| brace_stop(s, from, i)
}

/// A scan of the flags `num` for a non-numeric character, started at
/// `from`, stops at `i`.
pub open spec fn numeric_stop(num: Seq<bool>, from: int, i: int) -> bool {
    &&& from <= i <= num.len()
    &&& forall|k: int| from <= k < i ==> #[trigger] num[k]
    &&& i < num.len() ==> !num[i]
}

/// The end of the run of numeric characters that starts at `from`.
pub open spec fn numeric_end(num: Seq<bool>, from: int) -> int {
    choose|i: int| numeric_stop(num, from, i)
}

/// The pieces of `t` between its commas, from left to right.
pub open spec fn split_commas(t: Seq<char>) -> Seq<Seq<char>>
    decreases t.len(),
{
    if t.len() == 0 {
        seq![Seq::empty()]
    } else {
        let r = split_commas(t.drop_last());
        if t.last() == ',' {
            r.push(Seq::empty())
        } else {
            r.update(r.len() - 1, r.last().push(t.last()))
        }
    }
}

/// The decimal notations of the counts from `b` to `e`, both included.
pub open spec fn counts(b: nat, e: nat) -> Seq<Seq<char>> {
    Seq::new((e + 1 - b) as nat, |k: int| decimal((b + k) as nat))
}

/// The group whose `{` stands at `open`: its alternatives and the index
/// where the text after its `}` starts, or the reason it is malformed.
///
/// The group is a range when the numeric run right after `{` is followed
/// by `..`; then the end of the range is a numeric run closed by `}`.
/// Otherwise the group lists the comma-separated text up to the next
/// brace, which must be `}`; a dot in it is ordinary text.
pub open spec fn group(s: Seq<char>, num: Seq<bool>, open: int) -> Result<(Seq<Seq<char>>, int), Seq<char>> {
    let p = numeric_end(num, open + 1);
    if p + 1 < s.len() && s[p] == '.' && s[p + 1] == '.' {
        let q = numeric_end(num, p + 2);
        if q == s.len() {
            Err(msg_unclosed())
        } else if s[q] != '}' {
            Err(msg_not_numeric())
        } else {
            match (parse_count(s.subrange(open + 1, p)), parse_count(s.subrange(p + 2, q))) {
                (None, _) => Err(msg_bad_begin()),
                (Some(_), None) => Err(msg_bad_end()),
                (Some(b), Some(e)) => if b > e {
                    Err(msg_decreasing())
                } else {
                    Ok((counts(b as nat, e as nat), q + 1))
                },
            }
        }
    } else {
        let c = next_brace(s, open + 1);
        if c == s.len() {
            Err(msg_unclosed())
        } else if s[c] == '{' {
            Err(msg_nested_open())
        } else {
            Ok((split_commas(s.subrange(open + 1, c)), c + 1))
        }
    }
}

/// The expansion of the pattern `s`, where `num[k]` tells whether `s[k]`
/// is numeric: the strings it stands for, in order, or the reason it is
/// malformed.
///
/// The text before the group and the text after it are copied into every
/// result. A `}` before any `{` is an error, and so is a second `{` after
/// the group; a `}` after the group is ordinary text. `{}` stands for the
/// empty alternative.
pub open spec fn expand(s: Seq<char>, num: Seq<bool>) -> Result<Seq<Seq<char>>, Seq<char>> {
    let a = next_brace(s, 0);
    if a == s.len() {
        Ok(seq![s])
    } else if s[a] == '}' {
        Err(msg_close_first())
    } else {
        match group(s, num, a) {
            Err(m) => Err(m),
            Ok((alts, after)) => if exists|k: int| after <= k < s.len() && s[k] == '{' {
                Err(msg_second_open())
            } else {
                Ok(alts.map_values(|x: Seq<char>| s.subrange(0, a) + x + s.subrange(after, s.len() as int)))
            },
        }
    }
}

/// Which characters of `s` are numeric, as `char::is_numeric` tells.
pub open spec fn numeric_flags(s: Seq<char>) -> Seq<bool> {
    Seq::new(s.len(), |k: int| numeric_char(s[k]))
}

/// The views of a sequence of strings.
pub open spec fn views(v: Seq<String>) -> Seq<Seq<char>> {
    v.map_values(|x: String| x@)
}

/// What an expansion returned, in the terms of `expand`, for the pattern `s`.
pub open spec fn outcome(r: Result<Vec<String>, BraceExpansionError>, s: Seq<char>) -> Result<Seq<Seq<char>>, Seq<char>> {
    match r {
        Ok(v) => Ok(views(v@)),
        Err(e) => if e.str@ == s { Err(e.message@) } else { Err(Seq::empty()) },
    }
}

proof fn lemma_brace_stop(s: Seq<char>, from: int, i: int)
    requires
        brace_stop(s, from, i),
    ensures
        next_brace(s, from) == i,
{
    let j = next_brace(s, from);
    assert(brace_stop(s, from, j));
    if j < i {
        assert(!is_brace(s[j]));
    } else if i < j {
        assert(!is_brace(s[i]));
    }
}

proof fn lemma_numeric_stop(num: Seq<bool>, from: int, i: int)
    requires
        numeric_stop(num, from, i),
    ensures
        numeric_end(num, from) == i,
{
    let j = numeric_end(num, from);
    assert(numeric_stop(num, from, j));
    if j < i {
        assert(num[j]);
    } else if i < j {
        assert(num[i]);
    }
}

proof fn lemma_split_nonempty(t: Seq<char>)
    ensures
        split_commas(t).len() >= 1,
    decreases t.len(),
{
    if t.len() > 0 {
        lemma_split_nonempty(t.drop_last());
    }
}

/// Whether every character of `str` is numeric.
pub fn is_numeric_string(str: &str) -> (r: bool)
    ensures
        r == (forall|k: int| 0 <= k < str@.len() ==> numeric_char(#[trigger] str@[k])),
{
    let n = str.unicode_len();
    let mut i: usize = 0;
    while i < n
        invariant
            n == str@.len(),
            i <= n,
            forall|k: int| 0 <= k < i ==> numeric_char(#[trigger] str@[k]),
        decreases n - i,
    {
        if !char_is_numeric(str.get_char(i)) {
            return false;
        }
        i = i + 1;
    }
    true
}

fn chars_of(str: &str) -> (v: Vec<char>)
    ensures
        v@ == str@,
{
    let n = str.unicode_len();
    let mut v: Vec<char> = Vec::new();
    let mut i: usize = 0;
    while i < n
        invariant
            n == str@.len(),
            i <= n,
            v@ == str@.subrange(0, i as int),
        decreases n - i,
    {
        v.push(str.get_char(i));
        i = i + 1;
        assert(v@ =~= str@.subrange(0, i as int));
    }
    assert(v@ =~= str@);
    v
}

fn group_at(s: &Vec<char>, num: &Vec<bool>, open: usize) -> (r: Result<(Vec<String>, usize), String>)
    requires
        s@.len() == num@.len(),
        open < s@.len(),
    ensures
        match r {
            Ok((alts, after)) => group(s@, num@, open as int) == Ok::<_, Seq<char>>((views(alts@), after as int)),
            Err(m) => group(s@, num@, open as int) == Err::<(Seq<Seq<char>>, int), _>(m@),
        },
        r is Ok ==> open < r->Ok_0.1 <= s@.len(),
{
    let n = s.len();
    let mut p: usize = open + 1;
    while p < n && num[p]
        invariant
            n == s@.len() == num@.len(),
            open + 1 <= p <= n,
            forall|k: int| open + 1 <= k < p ==> #[trigger] num@[k],
        decreases n - p,
    {
        p = p + 1;
    }
    proof {
        lemma_numeric_stop(num@, open + 1, p as int);
    }
    if p < n && p + 1 < n && s[p] == '.' && s[p + 1] == '.' {
        let mut q: usize = p + 2;
        while q < n && num[q]
            invariant
                n == s@.len() == num@.len(),
                p + 2 <= q <= n,
                forall|k: int| p + 2 <= k < q ==> #[trigger] num@[k],
            decreases n - q,
        {
            q = q + 1;
        }
        proof {
            lemma_numeric_stop(num@, p + 2, q as int);
        }
        if q == n {
            return Err(String::from_str("Must close open brace"));
        }
        if s[q] != '}' {
            return Err(String::from_str("Range must be numeric"));
        }
        let b = match parse_count_at(s, open + 1, p) {
            Some(b) => b,
            None => {
                return Err(String::from_str("Cannot parse range begin"));
            },
        };
        let e = match parse_count_at(s, p + 2, q) {
            Some(e) => e,
            None => {
                return Err(String::from_str("Cannot parse range end"));
            },
        };
        if b > e {
            return Err(String::from_str("Ranges must be increasing"));
        }
        let mut alts: Vec<String> = Vec::new();
        let mut k: u64 = b;
        while k <= e
            invariant
                b <= k <= e + 1,
                e <= i64::MAX,
                views(alts@) == Seq::new((k - b) as nat, |j: int| decimal((b + j) as nat)),
            decreases e + 1 - k,
        {
            let ghost before = views(alts@);
            alts.push(decimal_string(k));
            assert(views(alts@) =~= before.push(decimal(k as nat)));
            k = k + 1;
            assert(views(alts@) =~= Seq::new((k - b) as nat, |j: int| decimal((b + j) as nat)));
        }
        assert(views(alts@) =~= counts(b as nat, e as nat));
        Ok((alts, q + 1))
    } else {
        let mut c: usize = open + 1;
        let mut done: Vec<String> = Vec::new();
        let mut cur = String::new();
        proof {
            assert(s@.subrange(open + 1, c as int) =~= Seq::<char>::empty());
            assert(views(done@).push(cur@) =~= split_commas(Seq::<char>::empty()));
        }
        while c < n && s[c] != '{' && s[c] != '}'
            invariant
                n == s@.len(),
                open + 1 <= c <= n,
                forall|k: int| open + 1 <= k < c ==> !is_brace(#[trigger] s@[k]),
                views(done@).push(cur@) == split_commas(s@.subrange(open + 1, c as int)),
            decreases n - c,
        {
            let ch = s[c];
            let ghost t = s@.subrange(open + 1, c as int + 1);
            proof {
                assert(t.drop_last() =~= s@.subrange(open + 1, c as int));
                lemma_split_nonempty(t.drop_last());
            }
            if ch == ',' {
                done.push(cur);
                cur = String::new();
                assert(views(done@).push(cur@) =~= split_commas(t));
            } else {
                let ghost before = views(done@).push(cur@);
                push_char(&mut cur, ch);
                assert(views(done@).push(cur@) =~= before.update(before.len() - 1, before.last().push(ch)));
            }
            c = c + 1;
        }
        proof {
            lemma_brace_stop(s@, open + 1, c as int);
        }
        if c == n {
            return Err(String::from_str("Must close open brace"));
        }
        if s[c] == '{' {
            return Err(String::from_str("Cannot open brace within an open brace"));
        }
        let ghost before = views(done@).push(cur@);
        done.push(cur);
        assert(views(done@) =~= before);
        Ok((done, c + 1))
    }
}

/// Expands the pattern `str`, where `numeric[k]` tells whether the
/// character at `k` is numeric.
pub fn expand_with_numeric(str: &str, numeric: &Vec<bool>) -> (r: Result<Vec<String>, BraceExpansionError>)
    requires
        numeric@.len() == str@.len(),
    ensures
        outcome(r, str@) == expand(str@, numeric@),
        r is Err ==> r->Err_0.str@ == str@,
{
    let s = chars_of(str);
    let n = s.len();
    let mut a: usize = 0;
    let mut prefix = String::new();
    while a < n && s[a] != '{' && s[a] != '}'
        invariant
            n == s@.len(),
            s@ == str@,
            a <= n,
            forall|k: int| 0 <= k < a ==> !is_brace(#[trigger] s@[k]),
            prefix@ == s@.subrange(0, a as int),
        decreases n - a,
    {
        push_char(&mut prefix, s[a]);
        a = a + 1;
        assert(prefix@ =~= s@.subrange(0, a as int));
    }
    proof {
        lemma_brace_stop(s@, 0, a as int);
    }
    if a == n {
        assert(prefix@ =~= str@);
        let r: Vec<String> = vec![prefix];
        assert(views(r@) =~= seq![str@]);
        return Ok(r);
    }
    if s[a] == '}' {
        return Err(BraceExpansionError {
            str: String::from_str(str),
            message: String::from_str("Cannot have closing brace before opening brace"),
        });
    }
    let (alts, after) = match group_at(&s, numeric, a) {
        Ok(g) => g,
        Err(m) => {
            return Err(BraceExpansionError { str: String::from_str(str), message: m });
        },
    };
    let mut k: usize = after;
    let mut suffix = String::new();
    while k < n
        invariant
            n == s@.len(),
            s@ == str@,
            a < n,
            next_brace(str@, 0) == a,
            str@[a as int] == '{',
            group(str@, numeric@, a as int) == Ok::<_, Seq<char>>((views(alts@), after as int)),
            after <= k <= n,
            forall|j: int| after <= j < k ==> s@[j] != '{',
            suffix@ == s@.subrange(after as int, k as int),
        decreases n - k,
    {
        if s[k] == '{' {
            assert(after <= k < n && str@[k as int] == '{');
            return Err(BraceExpansionError {
                str: String::from_str(str),
                message: String::from_str("Can only have one opening brace to expand"),
            });
        }
        push_char(&mut suffix, s[k]);
        k = k + 1;
        assert(suffix@ =~= s@.subrange(after as int, k as int));
    }
    let ghost whole = views(alts@).map_values(|x: Seq<char>| str@.subrange(0, a as int) + x + str@.subrange(after as int, str@.len() as int));
    let mut out: Vec<String> = Vec::new();
    let mut i: usize = 0;
    while i < alts.len()
        invariant
            i <= alts@.len(),
            prefix@ == str@.subrange(0, a as int),
            suffix@ == str@.subrange(after as int, str@.len() as int),
            whole.len() == alts@.len(),
            whole == views(alts@).map_values(|x: Seq<char>| str@.subrange(0, a as int) + x + str@.subrange(after as int, str@.len() as int)),
            views(out@) == whole.subrange(0, i as int),
        decreases alts@.len() - i,
    {
        let item = prefix.clone().concat(alts[i].as_str()).concat(suffix.as_str());
        assert(views(alts@)[i as int] == alts@[i as int]@);
        let ghost before = views(out@);
        out.push(item);
        assert(views(out@) =~= before.push(item@));
        i = i + 1;
        assert(views(out@) =~= whole.subrange(0, i as int));
    }
    assert(views(out@) =~= whole);
    Ok(out)
}

/// Expands the pattern `str` into the strings it stands for, in order.
pub fn brace_expansion(str: &str) -> (r: Result<Vec<String>, BraceExpansionError>)
    ensures
        outcome(r, str@) == expand(str@, numeric_flags(str@)),
        r is Err ==> r->Err_0.str@ == str@,
{
    let n = str.unicode_len();
    let mut numeric: Vec<bool> = Vec::new();
    let mut i: usize = 0;
    while i < n
        invariant
            n == str@.len(),
            i <= n,
            numeric@ == numeric_flags(str@).subrange(0, i as int),
        decreases n - i,
    {
        numeric.push(char_is_numeric(str.get_char(i)));
        i = i + 1;
        assert(numeric@ =~= numeric_flags(str@).subrange(0, i as int));
    }
    assert(numeric@ =~= numeric_flags(str@));
    expand_with_numeric(str, &numeric)
}

/// A pattern without braces stands for itself alone.
pub proof fn law_plain_pattern(s: Seq<char>, num: Seq<bool>)
    requires
        brace_free(s),
    ensures
        expand(s, num) == Ok::<_, Seq<char>>(seq![s]),
{
    lemma_brace_stop(s, 0, s.len() as int);
}

proof fn lemma_brace_stop_exists(s: Seq<char>, from: int)
    requires
        0 <= from <= s.len(),
    ensures
        brace_stop(s, from, next_brace(s, from)),
    decreases s.len() - from,
{
    if from == s.len() || is_brace(s[from]) {
        assert(brace_stop(s, from, from));
    } else {
        lemma_brace_stop_exists(s, from + 1);
        assert(brace_stop(s, from, next_brace(s, from + 1)));
    }
}

proof fn lemma_numeric_stop_exists(num: Seq<bool>, from: int)
    requires
        0 <= from <= num.len(),
    ensures
        numeric_stop(num, from, numeric_end(num, from)),
    decreases num.len() - from,
{
    if from == num.len() || !num[from] {
        assert(numeric_stop(num, from, from));
    } else {
        lemma_numeric_stop_exists(num, from + 1);
        assert(numeric_stop(num, from, numeric_end(num, from + 1)));
    }
}

/// An expansion that succeeds gives at least one string.
pub proof fn law_expansion_nonempty(s: Seq<char>, num: Seq<bool>)
    requires
        num.len() == s.len(),
    ensures
        expand(s, num) is Ok ==> expand(s, num)->Ok_0.len() >= 1,
{
    lemma_brace_stop_exists(s, 0);
    let a = next_brace(s, 0);
    if a < s.len() && s[a] == '{' {
        lemma_numeric_stop_exists(num, a + 1);
        lemma_brace_stop_exists(s, a + 1);
        lemma_split_nonempty(s.subrange(a + 1, next_brace(s, a + 1)));
    }
}

} // verus!
