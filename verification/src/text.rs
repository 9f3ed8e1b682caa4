//! Character and string helpers shared by the services: Unicode whitespace
//! trimming, ASCII case folding, prefix/suffix/substring tests, path file
//! names and decimal rendering, each specified over `Seq<char>`.
use vstd::prelude::*;

verus! {

/// The characters for which `char::is_whitespace` holds (Unicode `White_Space`).
pub open spec fn is_ws(c: char) -> bool {
    let u = c as u32;
    ||| (0x09 <= u && u <= 0x0D)
    ||| u == 0x20
    ||| u == 0x85
    ||| u == 0xA0
    ||| u == 0x1680
    ||| (0x2000 <= u && u <= 0x200A)
    ||| u == 0x2028
    ||| u == 0x2029
    ||| u == 0x202F
    ||| u == 0x205F
    ||| u == 0x3000
}

pub fn is_whitespace(c: char) -> (r: bool)
    ensures
        r == is_ws(c),
{
    let u = c as u32;
    (0x09 <= u && u <= 0x0D) || u == 0x20 || u == 0x85 || u == 0xA0 || u == 0x1680 || (0x2000
        <= u && u <= 0x200A) || u == 0x2028 || u == 0x2029 || u == 0x202F || u == 0x205F || u
        == 0x3000
}

/// Index of the first non-whitespace character at or after `i` (or `s.len()`).
pub open spec fn lead_from(s: Seq<char>, i: int) -> int
    decreases s.len() - i,
{
    if i < 0 || i >= s.len() {
        s.len() as int
    } else if is_ws(s[i]) {
        lead_from(s, i + 1)
    } else {
        i
    }
}

/// End (exclusive) of `s[lo..j]` once trailing whitespace is dropped.
pub open spec fn trail_to(s: Seq<char>, lo: int, j: int) -> int
    decreases j - lo,
{
    if j <= lo {
        lo
    } else if is_ws(s[j - 1]) {
        trail_to(s, lo, j - 1)
    } else {
        j
    }
}

/// `str::trim`: the sequence without leading and trailing whitespace.
pub open spec fn trim_seq(s: Seq<char>) -> Seq<char> {
    let lo = lead_from(s, 0);
    s.subrange(lo, trail_to(s, lo, s.len() as int))
}

/// Every character is whitespace (so the trimmed text is empty).
pub open spec fn is_blank_seq(s: Seq<char>) -> bool {
    forall|i: int| 0 <= i < s.len() ==> #[trigger] is_ws(s[i])
}

pub proof fn lemma_lead_from_bounds(s: Seq<char>, i: int)
    requires
        0 <= i <= s.len(),
    ensures
        i <= lead_from(s, i) <= s.len(),
        lead_from(s, i) < s.len() ==> !is_ws(s[lead_from(s, i)]),
        forall|k: int| i <= k < lead_from(s, i) ==> is_ws(#[trigger] s[k]),
    decreases s.len() - i,
{
    if i < s.len() && is_ws(s[i]) {
        lemma_lead_from_bounds(s, i + 1);
    }
}

pub proof fn lemma_trail_to_bounds(s: Seq<char>, lo: int, j: int)
    requires
        0 <= lo <= j <= s.len(),
    ensures
        lo <= trail_to(s, lo, j) <= j,
        trail_to(s, lo, j) > lo ==> !is_ws(s[trail_to(s, lo, j) - 1]),
        forall|k: int| trail_to(s, lo, j) <= k < j ==> is_ws(#[trigger] s[k]),
    decreases j - lo,
{
    if j > lo && is_ws(s[j - 1]) {
        lemma_trail_to_bounds(s, lo, j - 1);
    }
}

/// The trimmed text is empty exactly when the text is all whitespace.
pub proof fn lemma_trim_empty_iff_blank(s: Seq<char>)
    ensures
        (trim_seq(s).len() == 0) <==> is_blank_seq(s),
{
    lemma_lead_from_bounds(s, 0);
    let lo = lead_from(s, 0);
    lemma_trail_to_bounds(s, lo, s.len() as int);
    if is_blank_seq(s) {
        if lo < s.len() {
            assert(is_ws(s[lo]));
        }
    }
}

/// `str::trim`.
pub fn trim(s: &str) -> (r: String)
    ensures
        r@ == trim_seq(s@),
{
    let n = s.unicode_len();
    let mut i: usize = 0;
    while i < n && is_whitespace(s.get_char(i))
        invariant
            n == s@.len(),
            i <= n,
            lead_from(s@, 0) == lead_from(s@, i as int),
        decreases n - i,
    {
        i = i + 1;
    }
    assert(lead_from(s@, i as int) == i as int);
    let mut j: usize = n;
    while j > i && is_whitespace(s.get_char(j - 1))
        invariant
            n == s@.len(),
            i <= j <= n,
            trail_to(s@, i as int, n as int) == trail_to(s@, i as int, j as int),
        decreases j,
    {
        j = j - 1;
    }
    assert(trail_to(s@, i as int, j as int) == j as int);
    let t = s.substring_char(i, j);
    String::from_str(t)
}

/// Whether `s` is empty once trimmed (`s.trim().is_empty()`).
pub fn is_blank(s: &str) -> (r: bool)
    ensures
        r == is_blank_seq(s@),
        r == (trim_seq(s@).len() == 0),
{
    proof {
        lemma_trim_empty_iff_blank(s@);
    }
    let n = s.unicode_len();
    let mut i: usize = 0;
    while i < n
        invariant
            n == s@.len(),
            i <= n,
            forall|k: int| 0 <= k < i ==> #[trigger] is_ws(s@[k]),
            (trim_seq(s@).len() == 0) <==> is_blank_seq(s@),
        decreases n - i,
    {
        if !is_whitespace(s.get_char(i)) {
            assert(!is_ws(s@[i as int]));
            return false;
        }
        i = i + 1;
    }
    true
}

/// `char::to_ascii_lowercase`.
pub open spec fn lower_char(c: char) -> char {
    if 'A' <= c && c <= 'Z' {
        ((c as u32) + 32) as char
    } else {
        c
    }
}

pub fn to_lower_char(c: char) -> (r: char)
    ensures
        r == lower_char(c),
{
    if 'A' <= c && c <= 'Z' {
        let b = (c as u8) + 32;
        b as char
    } else {
        c
    }
}

/// `str::to_ascii_lowercase`, on the character sequence.
pub open spec fn lower_seq(s: Seq<char>) -> Seq<char> {
    Seq::new(s.len(), |i: int| lower_char(s[i]))
}

/// Appends one character (`String::push`).
#[verifier::external_body]
pub(crate) fn push_char(s: &mut String, c: char)
    ensures
        final(s)@ == old(s)@.push(c),
{
    s.push(c);
}

/// `str::to_ascii_lowercase`.
pub fn to_ascii_lowercase(s: &str) -> (r: String)
    ensures
        r@ == lower_seq(s@),
{
    let n = s.unicode_len();
    let mut out = String::new();
    let mut i: usize = 0;
    while i < n
        invariant
            n == s@.len(),
            i <= n,
            out@ == lower_seq(s@).subrange(0, i as int),
        decreases n - i,
    {
        let c = to_lower_char(s.get_char(i));
        push_char(&mut out, c);
        i = i + 1;
        assert(out@ =~= lower_seq(s@).subrange(0, i as int));
    }
    assert(out@ =~= lower_seq(s@));
    out
}

/// `str::eq_ignore_ascii_case`.
pub open spec fn eq_ignore_case_seq(a: Seq<char>, b: Seq<char>) -> bool {
    lower_seq(a) == lower_seq(b)
}

pub fn eq_ignore_ascii_case(a: &str, b: &str) -> (r: bool)
    ensures
        r == eq_ignore_case_seq(a@, b@),
{
    let n = a.unicode_len();
    let m = b.unicode_len();
    if n != m {
        assert(lower_seq(a@).len() != lower_seq(b@).len());
        return false;
    }
    let mut i: usize = 0;
    while i < n
        invariant
            n == a@.len(),
            m == b@.len(),
            n == m,
            i <= n,
            forall|k: int| 0 <= k < i ==> lower_char(a@[k]) == lower_char(b@[k]),
        decreases n - i,
    {
        if to_lower_char(a.get_char(i)) != to_lower_char(b.get_char(i)) {
            assert(lower_seq(a@)[i as int] != lower_seq(b@)[i as int]);
            return false;
        }
        i = i + 1;
    }
    assert(lower_seq(a@) =~= lower_seq(b@));
    true
}

/// Character-wise equality of two strings (`a == b`).
pub fn str_eq(a: &str, b: &str) -> (r: bool)
    ensures
        r == (a@ == b@),
{
    let n = a.unicode_len();
    let m = b.unicode_len();
    if n != m {
        return false;
    }
    let mut i: usize = 0;
    while i < n
        invariant
            n == a@.len(),
            m == b@.len(),
            n == m,
            i <= n,
            forall|k: int| 0 <= k < i ==> a@[k] == b@[k],
        decreases n - i,
    {
        if a.get_char(i) != b.get_char(i) {
            return false;
        }
        i = i + 1;
    }
    assert(a@ =~= b@);
    true
}

/// `p` occurs in `s` starting at index `i`.
pub open spec fn occurs_at(s: Seq<char>, p: Seq<char>, i: int) -> bool {
    0 <= i && i + p.len() <= s.len() && s.subrange(i, i + p.len()) == p
}

/// `str::starts_with`.
pub open spec fn starts_with_seq(s: Seq<char>, p: Seq<char>) -> bool {
    occurs_at(s, p, 0)
}

/// `str::ends_with`.
pub open spec fn ends_with_seq(s: Seq<char>, p: Seq<char>) -> bool {
    occurs_at(s, p, s.len() - p.len())
}

/// `str::contains`.
pub open spec fn contains_seq(s: Seq<char>, p: Seq<char>) -> bool {
    exists|i: int| occurs_at(s, p, i)
}

/// Whether `p` occurs in `s` at index `i`.
pub fn occurs_at_exec(s: &str, p: &str, i: usize) -> (r: bool)
    ensures
        r == occurs_at(s@, p@, i as int),
{
    let n = s.unicode_len();
    let m = p.unicode_len();
    if m > n || i > n - m {
        return false;
    }
    let mut k: usize = 0;
    while k < m
        invariant
            n == s@.len(),
            m == p@.len(),
            i + m <= n,
            k <= m,
            forall|t: int| 0 <= t < k ==> s@[i + t] == p@[t],
        decreases m - k,
    {
        if s.get_char(i + k) != p.get_char(k) {
            assert(s@.subrange(i as int, i + m)[k as int] != p@[k as int]);
            return false;
        }
        k = k + 1;
    }
    assert(s@.subrange(i as int, i + m) =~= p@);
    true
}

pub fn starts_with(s: &str, p: &str) -> (r: bool)
    ensures
        r == starts_with_seq(s@, p@),
{
    occurs_at_exec(s, p, 0)
}

pub fn ends_with(s: &str, p: &str) -> (r: bool)
    ensures
        r == ends_with_seq(s@, p@),
{
    let n = s.unicode_len();
    let m = p.unicode_len();
    if m > n {
        return false;
    }
    occurs_at_exec(s, p, n - m)
}

pub fn contains(s: &str, p: &str) -> (r: bool)
    ensures
        r == contains_seq(s@, p@),
{
    let n = s.unicode_len();
    let m = p.unicode_len();
    if m > n {
        assert forall|t: int| !#[trigger] occurs_at(s@, p@, t) by {}
        return false;
    }
    let last = n - m;
    let mut i: usize = 0;
    loop
        invariant
            n == s@.len(),
            m == p@.len(),
            m <= n,
            last == n - m,
            i <= last,
            forall|t: int| 0 <= t < i ==> !#[trigger] occurs_at(s@, p@, t),
        decreases last - i,
    {
        if occurs_at_exec(s, p, i) {
            return true;
        }
        if i == last {
            assert forall|t: int| !#[trigger] occurs_at(s@, p@, t) by {
                if 0 <= t && t < i {
                }
            }
            return false;
        }
        i = i + 1;
    }
}

/// Concatenation of two strings into a new `String`.
pub fn concat2(a: &str, b: &str) -> (r: String)
    ensures
        r@ == a@ + b@,
{
    let mut s = String::from_str(a);
    s.append(b);
    s
}

/// Concatenation of three strings into a new `String`.
pub fn concat3(a: &str, b: &str, c: &str) -> (r: String)
    ensures
        r@ == a@ + b@ + c@,
{
    let mut s = String::from_str(a);
    s.append(b);
    s.append(c);
    s
}

/// Decimal digit character for `d < 10`.
pub open spec fn digit_char(d: nat) -> char {
    (48 + d) as char
}

/// Decimal rendering of a natural number (`n.to_string()`).
pub open spec fn decimal(n: nat) -> Seq<char>
    decreases n,
{
    if n < 10 {
        seq![digit_char(n)]
    } else {
        decimal(n / 10).push(digit_char(n % 10))
    }
}

fn digit(d: u64) -> (c: char)
    requires
        d < 10,
    ensures
        c == digit_char(d as nat),
{
    match d {
        0 => '0',
        1 => '1',
        2 => '2',
        3 => '3',
        4 => '4',
        5 => '5',
        6 => '6',
        7 => '7',
        8 => '8',
        _ => '9',
    }
}

/// `n.to_string()` for a `u64`.
pub fn u64_to_string(n: u64) -> (r: String)
    ensures
        r@ == decimal(n as nat),
    decreases n,
{
    if n < 10 {
        let mut s = String::new();
        push_char(&mut s, digit(n));
        assert(s@ =~= decimal(n as nat));
        s
    } else {
        let mut s = u64_to_string(n / 10);
        push_char(&mut s, digit(n % 10));
        s
    }
}

/// Copy of an optional string.
pub fn clone_opt_string(s: &Option<String>) -> (r: Option<String>)
    ensures
        r == *s,
{
    match s {
        Some(v) => Some(v.clone()),
        None => None,
    }
}

/// The last component of a slash-separated path, ignoring empty and `.`
/// components (`Path::file_name` for plain paths): `None` when there is no
/// such component or it is `..`.
pub open spec fn file_name_seq(p: Seq<char>) -> Option<Seq<char>> {
    let end = trail_slash(p, p.len() as int);
    let start = last_slash_before(p, end);
    let name = p.subrange(start, end);
    if name.len() == 0 || name == seq!['.', '.'] {
        None
    } else {
        Some(name)
    }
}

/// Whether `p[j - 1]` is a `.` forming a component by itself.
pub open spec fn dot_component_ends_at(p: Seq<char>, j: int) -> bool {
    p[j - 1] == '.' && (j == 1 || p[j - 2] == '/')
}

/// End of `p[0..j]` once trailing `/` characters and `.` components are
/// dropped.
pub open spec fn trail_slash(p: Seq<char>, j: int) -> int
    decreases j,
{
    if j <= 0 {
        0
    } else if p[j - 1] == '/' || dot_component_ends_at(p, j) {
        trail_slash(p, j - 1)
    } else {
        j
    }
}

/// Start of the component that ends at `j` (just after the previous `/`).
pub open spec fn last_slash_before(p: Seq<char>, j: int) -> int
    decreases j,
{
    if j <= 0 {
        0
    } else if p[j - 1] == '/' {
        j
    } else {
        last_slash_before(p, j - 1)
    }
}

proof fn lemma_trail_slash_bounds(p: Seq<char>, j: int)
    requires
        0 <= j <= p.len(),
    ensures
        0 <= trail_slash(p, j) <= j,
    decreases j,
{
    if j > 0 && (p[j - 1] == '/' || dot_component_ends_at(p, j)) {
        lemma_trail_slash_bounds(p, j - 1);
    }
}

proof fn lemma_last_slash_bounds(p: Seq<char>, j: int)
    requires
        0 <= j <= p.len(),
    ensures
        0 <= last_slash_before(p, j) <= j,
    decreases j,
{
    if j > 0 && p[j - 1] != '/' {
        lemma_last_slash_bounds(p, j - 1);
    }
}

/// The file-name component of a path, or the whole path when it has none
/// (how repositories and keys are labelled by default).
pub open spec fn name_or_path(p: Seq<char>) -> Seq<char> {
    match file_name_seq(p) {
        Some(n) => n,
        None => p,
    }
}

/// `Path::new(path).file_name()` (non-empty), else the path itself.
pub fn file_name_or_path(path: &str) -> (r: String)
    ensures
        r@ == name_or_path(path@),
{
    let n = path.unicode_len();
    let mut end: usize = n;
    while end > 0 && (path.get_char(end - 1) == '/' || (path.get_char(end - 1) == '.' && (end == 1
        || path.get_char(end - 2) == '/')))
        invariant
            n == path@.len(),
            end <= n,
            trail_slash(path@, n as int) == trail_slash(path@, end as int),
        decreases end,
    {
        end = end - 1;
    }
    assert(trail_slash(path@, end as int) == end as int);
    let mut start: usize = end;
    while start > 0 && path.get_char(start - 1) != '/'
        invariant
            n == path@.len(),
            start <= end <= n,
            last_slash_before(path@, end as int) == last_slash_before(path@, start as int),
        decreases start,
    {
        start = start - 1;
    }
    assert(last_slash_before(path@, start as int) == start as int);
    let name = path.substring_char(start, end);
    let dotdot = end - start == 2 && path.get_char(start) == '.' && path.get_char(start + 1)
        == '.';
    if start == end || dotdot {
        proof {
            if dotdot {
                assert(name@ =~= seq!['.', '.']);
            }
        }
        String::from_str(path)
    } else {
        proof {
            assert(name@.len() == end - start);
            if end - start == 2 {
                assert(name@[0] == path@[start as int]);
                assert(name@[1] == path@[start + 1]);
                assert(seq!['.', '.'][1] == '.');
                assert(name@ != seq!['.', '.']);
            }
        }
        String::from_str(name)
    }
}


/// First index at or after `i` whose character is not `c` (or `s.len()`).
pub open spec fn skip_char_from(s: Seq<char>, c: char, i: int) -> int
    decreases s.len() - i,
{
    if i < 0 || i >= s.len() {
        s.len() as int
    } else if s[i] == c {
        skip_char_from(s, c, i + 1)
    } else {
        i
    }
}

/// End of `s[lo..j]` once trailing `c` characters are dropped.
pub open spec fn back_char_to(s: Seq<char>, c: char, lo: int, j: int) -> int
    decreases j - lo,
{
    if j <= lo {
        lo
    } else if s[j - 1] == c {
        back_char_to(s, c, lo, j - 1)
    } else {
        j
    }
}

/// `str::trim_matches(c)`: the sequence without leading and trailing `c`.
pub open spec fn trim_char_seq(s: Seq<char>, c: char) -> Seq<char> {
    let lo = skip_char_from(s, c, 0);
    s.subrange(lo, back_char_to(s, c, lo, s.len() as int))
}

pub proof fn lemma_skip_char_bounds(s: Seq<char>, c: char, i: int)
    requires
        0 <= i <= s.len(),
    ensures
        i <= skip_char_from(s, c, i) <= s.len(),
    decreases s.len() - i,
{
    if i < s.len() && s[i] == c {
        lemma_skip_char_bounds(s, c, i + 1);
    }
}

pub proof fn lemma_back_char_bounds(s: Seq<char>, c: char, lo: int, j: int)
    requires
        0 <= lo <= j <= s.len(),
    ensures
        lo <= back_char_to(s, c, lo, j) <= j,
    decreases j - lo,
{
    if j > lo && s[j - 1] == c {
        lemma_back_char_bounds(s, c, lo, j - 1);
    }
}

/// `s[from..to].trim_matches(c)` as a new string.
pub fn trim_char_range(s: &str, c: char, from: usize, to: usize) -> (r: String)
    requires
        from <= to <= s@.len(),
    ensures
        r@ == trim_char_seq(s@.subrange(from as int, to as int), c),
{
    let ghost sub = s@.subrange(from as int, to as int);
    let mut i: usize = from;
    while i < to && s.get_char(i) == c
        invariant
            to <= s@.len(),
            from <= i <= to,
            sub == s@.subrange(from as int, to as int),
            skip_char_from(sub, c, 0) == skip_char_from(sub, c, i - from),
        decreases to - i,
    {
        assert(sub[i - from] == s@[i as int]);
        i = i + 1;
    }
    proof {
        if i < to {
            assert(sub[i - from] == s@[i as int]);
        }
    }
    assert(skip_char_from(sub, c, i - from) == i - from);
    let mut j: usize = to;
    while j > i && s.get_char(j - 1) == c
        invariant
            to <= s@.len(),
            from <= i <= j <= to,
            sub == s@.subrange(from as int, to as int),
            back_char_to(sub, c, i - from, to - from) == back_char_to(sub, c, i - from, j - from),
        decreases j,
    {
        assert(sub[j - 1 - from] == s@[j - 1]);
        j = j - 1;
    }
    proof {
        if j > i {
            assert(sub[j - 1 - from] == s@[j - 1]);
        }
    }
    assert(back_char_to(sub, c, i - from, j - from) == j - from);
    let t = s.substring_char(i, j);
    assert(t@ =~= sub.subrange(i - from, j - from));
    String::from_str(t)
}

/// First index at or after `i` holding `c`, or -1.
pub open spec fn index_of_char(s: Seq<char>, c: char, i: int) -> int
    decreases s.len() - i,
{
    if i < 0 || i >= s.len() {
        -1
    } else if s[i] == c {
        i
    } else {
        index_of_char(s, c, i + 1)
    }
}

/// Last index before `j` holding `c`, or -1.
pub open spec fn last_index_of_char(s: Seq<char>, c: char, j: int) -> int
    decreases j,
{
    if j <= 0 || j > s.len() {
        -1
    } else if s[j - 1] == c {
        j - 1
    } else {
        last_index_of_char(s, c, j - 1)
    }
}

pub proof fn lemma_index_of_char(s: Seq<char>, c: char, i: int)
    requires
        0 <= i <= s.len(),
    ensures
        index_of_char(s, c, i) == -1 || (i <= index_of_char(s, c, i) < s.len() && s[index_of_char(
            s,
            c,
            i,
        )] == c),
        forall|k: int|
            i <= k < s.len() && (index_of_char(s, c, i) == -1 || k < index_of_char(s, c, i))
                ==> s[k] != c,
    decreases s.len() - i,
{
    if i < s.len() && s[i] != c {
        lemma_index_of_char(s, c, i + 1);
    }
}

pub proof fn lemma_last_index_of_char(s: Seq<char>, c: char, j: int)
    requires
        0 <= j <= s.len(),
    ensures
        last_index_of_char(s, c, j) == -1 || (0 <= last_index_of_char(s, c, j) < j && s[last_index_of_char(s, c, j)] == c),
        forall|k: int| last_index_of_char(s, c, j) < k < j ==> s[k] != c,
    decreases j,
{
    if j > 0 && s[j - 1] != c {
        lemma_last_index_of_char(s, c, j - 1);
    }
}

/// First position at or after `from` holding `c`.
pub fn find_char(s: &str, c: char, from: usize) -> (r: Option<usize>)
    requires
        from <= s@.len(),
    ensures
        match r {
            Some(k) => k as int == index_of_char(s@, c, from as int),
            None => index_of_char(s@, c, from as int) == -1,
        },
{
    let n = s.unicode_len();
    let mut i = from;
    while i < n
        invariant
            n == s@.len(),
            from <= i <= n,
            index_of_char(s@, c, from as int) == index_of_char(s@, c, i as int),
        decreases n - i,
    {
        if s.get_char(i) == c {
            return Some(i);
        }
        i = i + 1;
    }
    None
}

/// Last position before `before` holding `c`.
pub fn rfind_char(s: &str, c: char, before: usize) -> (r: Option<usize>)
    requires
        before <= s@.len(),
    ensures
        match r {
            Some(k) => k as int == last_index_of_char(s@, c, before as int),
            None => last_index_of_char(s@, c, before as int) == -1,
        },
{
    let mut j = before;
    while j > 0
        invariant
            j <= before <= s@.len(),
            last_index_of_char(s@, c, before as int) == last_index_of_char(s@, c, j as int),
        decreases j,
    {
        if s.get_char(j - 1) == c {
            return Some(j - 1);
        }
        j = j - 1;
    }
    None
}

/// `s[from..to]` as a new string.
pub fn substring(s: &str, from: usize, to: usize) -> (r: String)
    requires
        from <= to <= s@.len(),
    ensures
        r@ == s@.subrange(from as int, to as int),
{
    String::from_str(s.substring_char(from, to))
}

} // verus!
