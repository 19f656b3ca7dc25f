//! Character-level helpers shared by the enumerators and the matcher.
use vstd::prelude::*;
use vstd::string::*;

verus! {

/// The final segment of a path-like string: everything after the last `/`.
pub open spec fn basename_of(s: Seq<char>) -> Seq<char>
    decreases s.len(),
{
    if s.len() == 0 {
        s
    } else if s.last() == '/' {
        Seq::empty()
    } else {
        basename_of(s.drop_last()).push(s.last())
    }
}

proof fn lemma_basename_suffix(s: Seq<char>, i: int)
    requires
        0 <= i <= s.len(),
        forall|k: int| i <= k < s.len() ==> s[k] != '/',
    ensures
        i > 0 && s[i - 1] == '/' ==> basename_of(s) == s.subrange(i, s.len() as int),
        i == 0 ==> basename_of(s) == s,
    decreases s.len() - i,
{
    if i < s.len() {
        lemma_basename_suffix(s.drop_last(), i);
        assert(s.drop_last().subrange(i, s.len() - 1).push(s.last()) =~= s.subrange(i, s.len() as int));
        assert(s.drop_last().push(s.last()) =~= s);
    } else if i > 0 && s[i - 1] == '/' {
        assert(s.subrange(i, s.len() as int) =~= Seq::<char>::empty());
    }
}

/// Returns the final path segment of `s`.
pub fn basename(s: &str) -> (r: String)
    ensures
        r@ == basename_of(s@),
{
    let n = s.unicode_len();
    let mut i: usize = n;
    while i > 0 && s.get_char(i - 1) != '/'
        invariant
            n == s@.len(),
            i <= n,
            forall|k: int| i <= k < n ==> s@[k] != '/',
        decreases i,
    {
        i = i - 1;
    }
    proof {
        lemma_basename_suffix(s@, i as int);
        if i == 0 {
            assert(s@.subrange(0, n as int) =~= s@);
        }
    }
    s.substring_char(i, n).to_owned()
}


/// `s` without leading spaces.
pub open spec fn trim_start_spaces(s: Seq<char>) -> Seq<char>
    decreases s.len(),
{
    if s.len() > 0 && s[0] == ' ' {
        trim_start_spaces(s.drop_first())
    } else {
        s
    }
}

/// `s` without trailing spaces.
pub open spec fn trim_end_spaces(s: Seq<char>) -> Seq<char>
    decreases s.len(),
{
    if s.len() > 0 && s.last() == ' ' {
        trim_end_spaces(s.drop_last())
    } else {
        s
    }
}

/// `s` without leading or trailing spaces.
pub open spec fn trim_spaces(s: Seq<char>) -> Seq<char> {
    trim_end_spaces(trim_start_spaces(s))
}

/// `s` without its last character when that character is `c`.
pub open spec fn without_trailing(s: Seq<char>, c: char) -> Seq<char> {
    if s.len() > 0 && s.last() == c {
        s.drop_last()
    } else {
        s
    }
}

/// The pieces of `s` between occurrences of `sep`; there is always at least one.
pub open spec fn split_on(s: Seq<char>, sep: char) -> Seq<Seq<char>>
    decreases s.len(),
{
    if s.len() == 0 {
        seq![Seq::empty()]
    } else {
        let p = split_on(s.drop_last(), sep);
        if s.last() == sep {
            p.push(Seq::empty())
        } else {
            p.update(p.len() - 1, p.last().push(s.last()))
        }
    }
}

/// The views of a vector of strings.
pub open spec fn views_of(v: Seq<String>) -> Seq<Seq<char>> {
    v.map_values(|x: String| x@)
}

pub open spec fn is_digit(c: char) -> bool {
    '0' <= c && c <= '9'
}

pub open spec fn all_digits(s: Seq<char>) -> bool {
    forall|k: int| 0 <= k < s.len() ==> is_digit(#[trigger] s[k])
}

/// The number written by the decimal digits of `s`.
pub open spec fn digits_value(s: Seq<char>) -> int
    decreases s.len(),
{
    if s.len() == 0 {
        0
    } else {
        digits_value(s.drop_last()) * 10 + (s.last() as int - '0' as int)
    }
}

/// Whether `s` is the decimal notation of a positive integer that fits in `usize`.
pub open spec fn is_pid_text(s: Seq<char>) -> bool {
    s.len() > 0 && all_digits(s) && 0 < digits_value(s) <= usize::MAX
}

/// Splitting always yields at least one piece.
pub proof fn lemma_split_on_nonempty(s: Seq<char>, sep: char)
    ensures
        split_on(s, sep).len() >= 1,
    decreases s.len(),
{
    if s.len() > 0 {
        lemma_split_on_nonempty(s.drop_last(), sep);
    }
}

proof fn lemma_trim_start_skip(s: Seq<char>, i: int)
    requires
        0 <= i <= s.len(),
        forall|k: int| 0 <= k < i ==> s[k] == ' ',
    ensures
        trim_start_spaces(s) == trim_start_spaces(s.subrange(i, s.len() as int)),
    decreases i,
{
    if i == 0 {
        assert(s.subrange(0, s.len() as int) =~= s);
    } else {
        lemma_trim_start_skip(s, i - 1);
        assert(s.subrange(i - 1, s.len() as int).drop_first() =~= s.subrange(i, s.len() as int));
    }
}

proof fn lemma_trim_end_skip(s: Seq<char>, j: int)
    requires
        0 <= j <= s.len(),
        forall|k: int| j <= k < s.len() ==> s[k] == ' ',
    ensures
        trim_end_spaces(s) == trim_end_spaces(s.subrange(0, j)),
    decreases s.len() - j,
{
    if j == s.len() {
        assert(s.subrange(0, j) =~= s);
    } else {
        lemma_trim_end_skip(s, j + 1);
        assert(s.subrange(0, j + 1).drop_last() =~= s.subrange(0, j));
    }
}

proof fn lemma_digits_value_grows(s: Seq<char>, i: int)
    requires
        0 <= i <= s.len(),
        all_digits(s),
    ensures
        0 <= digits_value(s.subrange(0, i)) <= digits_value(s),
    decreases s.len(),
{
    if i == s.len() {
        assert(s.subrange(0, i) =~= s);
        if s.len() > 0 {
            assert(is_digit(s[s.len() - 1]));
            lemma_digits_value_grows(s.drop_last(), i - 1);
            assert(s.drop_last().subrange(0, i - 1) =~= s.drop_last());
        }
    } else {
        assert(is_digit(s[s.len() - 1]));
        lemma_digits_value_grows(s.drop_last(), i);
        assert(s.drop_last().subrange(0, i) =~= s.subrange(0, i));
        lemma_digits_value_grows(s.drop_last(), s.len() - 1);
        assert(s.drop_last().subrange(0, s.len() - 1) =~= s.drop_last());
    }
}

/// `s` without leading spaces.
pub fn trim_start<'a>(s: &'a str) -> (r: &'a str)
    ensures
        r@ == trim_start_spaces(s@),
{
    let n = s.unicode_len();
    let mut i: usize = 0;
    while i < n && s.get_char(i) == ' '
        invariant
            n == s@.len(),
            i <= n,
            forall|k: int| 0 <= k < i ==> s@[k] == ' ',
        decreases n - i,
    {
        i = i + 1;
    }
    proof {
        lemma_trim_start_skip(s@, i as int);
    }
    s.substring_char(i, n)
}

/// `s` without trailing spaces.
pub fn trim_end<'a>(s: &'a str) -> (r: &'a str)
    ensures
        r@ == trim_end_spaces(s@),
{
    let n = s.unicode_len();
    let mut j: usize = n;
    while j > 0 && s.get_char(j - 1) == ' '
        invariant
            n == s@.len(),
            j <= n,
            forall|k: int| j <= k < n ==> s@[k] == ' ',
        decreases j,
    {
        j = j - 1;
    }
    proof {
        lemma_trim_end_skip(s@, j as int);
    }
    s.substring_char(0, j)
}

/// `s` without leading or trailing spaces.
pub fn trim<'a>(s: &'a str) -> (r: &'a str)
    ensures
        r@ == trim_spaces(s@),
{
    trim_end(trim_start(s))
}

/// `s` without one final `c`, if it ends with `c`.
pub fn strip_trailing<'a>(s: &'a str, c: char) -> (r: &'a str)
    ensures
        r@ == without_trailing(s@, c),
{
    let n = s.unicode_len();
    if n > 0 && s.get_char(n - 1) == c {
        s.substring_char(0, n - 1)
    } else {
        proof {
            assert(s@.subrange(0, n as int) =~= s@);
        }
        s.substring_char(0, n)
    }
}

/// Splits `s` at every `sep`.
pub fn split_fields(s: &str, sep: char) -> (r: Vec<String>)
    ensures
        views_of(r@) == split_on(s@, sep),
{
    let n = s.unicode_len();
    let mut fields: Vec<String> = Vec::new();
    let mut start: usize = 0;
    let mut i: usize = 0;
    proof {
        assert(views_of(fields@) =~= Seq::<Seq<char>>::empty());
        assert(s@.subrange(0, 0) =~= Seq::<char>::empty());
        assert(views_of(fields@).push(s@.subrange(0, 0)) =~= split_on(s@.subrange(0, 0), sep));
    }
    while i < n
        invariant
            n == s@.len(),
            start <= i <= n,
            views_of(fields@).push(s@.subrange(start as int, i as int)) == split_on(
                s@.subrange(0, i as int),
                sep,
            ),
        decreases n - i,
    {
        let c = s.get_char(i);
        let ghost prev = s@.subrange(0, i as int);
        let ghost done = views_of(fields@);
        let ghost s0 = start;
        proof {
            assert(s@.subrange(0, i + 1).drop_last() =~= prev);
            lemma_split_on_nonempty(prev, sep);
        }
        if c == sep {
            let piece = s.substring_char(start, i).to_owned();
            fields.push(piece);
            start = i + 1;
            proof {
                assert(views_of(fields@) =~= done.push(s@.subrange(s0 as int, i as int)));
                assert(s@.subrange(start as int, i + 1) =~= Seq::<char>::empty());
                assert(views_of(fields@).push(s@.subrange(start as int, i + 1)) =~= split_on(
                    s@.subrange(0, i + 1),
                    sep,
                ));
            }
        } else {
            proof {
                assert(s@.subrange(start as int, i as int).push(c) =~= s@.subrange(
                    start as int,
                    i + 1,
                ));
                assert(views_of(fields@).push(s@.subrange(start as int, i + 1)) =~= split_on(
                    s@.subrange(0, i + 1),
                    sep,
                ));
            }
        }
        i = i + 1;
    }
    let last = s.substring_char(start, n).to_owned();
    fields.push(last);
    proof {
        assert(s@.subrange(0, n as int) =~= s@);
        assert(views_of(fields@) =~= split_on(s@, sep));
    }
    fields
}

/// Reads `s` as the decimal notation of a positive integer that fits in `usize`.
pub fn parse_pid(s: &str) -> (r: Option<usize>)
    ensures
        r is Some <==> is_pid_text(s@),
        r matches Some(v) ==> v == digits_value(s@),
{
    let n = s.unicode_len();
    if n == 0 {
        return None;
    }
    let mut value: usize = 0;
    let mut i: usize = 0;
    while i < n
        invariant
            n == s@.len(),
            i <= n,
            all_digits(s@.subrange(0, i as int)),
            value == digits_value(s@.subrange(0, i as int)),
        decreases n - i,
    {
        let c = s.get_char(i);
        proof {
            assert(s@.subrange(0, i + 1).drop_last() =~= s@.subrange(0, i as int));
        }
        if c < '0' || c > '9' {
            proof {
                assert(!is_digit(s@[i as int]));
            }
            return None;
        }
        let d = (c as u32 - '0' as u32) as usize;
        let next = match value.checked_mul(10) {
            Some(m) => m.checked_add(d),
            None => None,
        };
        proof {
            assert(all_digits(s@.subrange(0, i + 1)));
        }
        match next {
            Some(v) => {
                value = v;
            },
            None => {
                proof {
                    if all_digits(s@) {
                        lemma_digits_value_grows(s@, i + 1);
                    }
                }
                return None;
            },
        }
        i = i + 1;
    }
    proof {
        assert(s@.subrange(0, n as int) =~= s@);
    }
    if value == 0 {
        None
    } else {
        Some(value)
    }
}

/// The pieces of `s` between occurrences of `sep`, the first left out; none for an empty `s`.
pub open spec fn tail_fields(s: Seq<char>, sep: char) -> Seq<Seq<char>> {
    if s.len() == 0 {
        Seq::empty()
    } else {
        split_on(s, sep).drop_first()
    }
}

/// Splits `s` at every `sep` and drops the first piece.
pub fn split_tail(s: &str, sep: char) -> (r: Vec<String>)
    ensures
        views_of(r@) == tail_fields(s@, sep),
{
    if s.unicode_len() == 0 {
        let none: Vec<String> = Vec::new();
        proof {
            assert(views_of(none@) =~= tail_fields(s@, sep));
        }
        return none;
    }
    let mut fields = split_fields(s, sep);
    proof {
        lemma_split_on_nonempty(s@, sep);
    }
    let ghost all = fields@;
    fields.remove(0);
    proof {
        assert(fields@ =~= all.drop_first());
        assert(views_of(fields@) =~= views_of(all).drop_first());
    }
    fields
}

/// Where `w` first occurs in `s` at or after `i`.
pub open spec fn find_from(s: Seq<char>, w: Seq<char>, i: int) -> Option<int>
    decreases s.len() + 1 - i,
{
    if i < 0 || i + w.len() > s.len() {
        None
    } else if s.subrange(i, i + w.len()) == w {
        Some(i)
    } else {
        find_from(s, w, i + 1)
    }
}

/// The offset of the first occurrence of `w` in `s`.
pub fn find(s: &str, w: &str) -> (r: Option<usize>)
    ensures
        match r {
            Some(i) => find_from(s@, w@, 0) == Some(i as int),
            None => find_from(s@, w@, 0) is None,
        },
{
    let n = s.unicode_len();
    let m = w.unicode_len();
    if m > n {
        return None;
    }
    let target = w.to_owned();
    let mut i: usize = 0;
    while i <= n - m
        invariant
            n == s@.len(),
            m == w@.len(),
            m <= n,
            target@ == w@,
            find_from(s@, w@, 0) == find_from(s@, w@, i as int),
        decreases n - m + 1 - i,
    {
        let here = s.substring_char(i, i + m).to_owned();
        if here == target {
            return Some(i);
        }
        if i == n - m {
            proof {
                assert(find_from(s@, w@, i + 1) is None);
            }
            return None;
        }
        i = i + 1;
    }
    None
}

} // verus!
