//! String helpers shared by the cache and the reconciliation layer: path
//! tails, file extensions, path joining and decimal formatting.

use vstd::prelude::*;
use vstd::string::StrSliceExecFns;
use vstd::string::StringExecFns;

verus! {

/// The position just after the last occurrence of `c` in `s`, or 0 when `c`
/// does not occur.
pub open spec fn after_last(s: Seq<char>, c: char) -> int
    decreases s.len(),
{
    if s.len() == 0 {
        0
    } else if s[s.len() - 1] == c {
        s.len() as int
    } else {
        after_last(s.drop_last(), c)
    }
}

proof fn lemma_after_last_bounds(s: Seq<char>, c: char)
    ensures
        0 <= after_last(s, c) <= s.len(),
    decreases s.len(),
{
    if s.len() > 0 && s[s.len() - 1] != c {
        lemma_after_last_bounds(s.drop_last(), c);
    }
}

proof fn lemma_after_last_at(s: Seq<char>, c: char, k: int)
    requires
        0 <= k < s.len(),
        s[k] == c,
        forall|j: int| k < j < s.len() ==> s[j] != c,
    ensures
        after_last(s, c) == k + 1,
    decreases s.len(),
{
    if s[s.len() - 1] != c {
        lemma_after_last_at(s.drop_last(), c, k);
    }
}

proof fn lemma_after_last_absent(s: Seq<char>, c: char)
    requires
        forall|j: int| 0 <= j < s.len() ==> s[j] != c,
    ensures
        after_last(s, c) == 0,
    decreases s.len(),
{
    if s.len() > 0 {
        lemma_after_last_absent(s.drop_last(), c);
    }
}

/// The index of the first occurrence of `c` in `s`, or `s.len()` when `c`
/// does not occur.
pub open spec fn before_first(s: Seq<char>, c: char) -> int
    decreases s.len(),
{
    if s.len() == 0 {
        0
    } else if s[0] == c {
        0
    } else {
        1 + before_first(s.drop_first(), c)
    }
}

proof fn lemma_before_first_bounds(s: Seq<char>, c: char)
    ensures
        0 <= before_first(s, c) <= s.len(),
    decreases s.len(),
{
    if s.len() > 0 && s[0] != c {
        lemma_before_first_bounds(s.drop_first(), c);
    }
}

proof fn lemma_before_first_at(s: Seq<char>, c: char, k: int)
    requires
        0 <= k < s.len(),
        s[k] == c,
        forall|j: int| 0 <= j < k ==> s[j] != c,
    ensures
        before_first(s, c) == k,
    decreases s.len(),
{
    if s[0] != c {
        lemma_before_first_at(s.drop_first(), c, k - 1);
    }
}

proof fn lemma_before_first_absent(s: Seq<char>, c: char)
    requires
        forall|j: int| 0 <= j < s.len() ==> s[j] != c,
    ensures
        before_first(s, c) == s.len(),
    decreases s.len(),
{
    if s.len() > 0 {
        lemma_before_first_absent(s.drop_first(), c);
    }
}

/// Position just after the last occurrence of `c`, found by a backward scan.
fn char_rfind(s: &str, c: char) -> (r: usize)
    ensures
        r == after_last(s@, c),
{
    let mut i: usize = s.unicode_len();
    while i > 0
        invariant
            0 <= i <= s@.len(),
            forall|j: int| i <= j < s@.len() ==> s@[j] != c,
        decreases i,
    {
        if s.get_char(i - 1) == c {
            proof {
                lemma_after_last_at(s@, c, i - 1);
            }
            return i;
        }
        i = i - 1;
    }
    proof {
        lemma_after_last_absent(s@, c);
    }
    0
}

/// Index of the first occurrence of `c`, or the length, by a forward scan.
fn char_find(s: &str, c: char) -> (r: usize)
    ensures
        r == before_first(s@, c),
{
    let n = s.unicode_len();
    let mut i: usize = 0;
    while i < n
        invariant
            0 <= i <= s@.len(),
            n == s@.len(),
            forall|j: int| 0 <= j < i ==> s@[j] != c,
        decreases n - i,
    {
        if s.get_char(i) == c {
            proof {
                lemma_before_first_at(s@, c, i as int);
            }
            return i;
        }
        i = i + 1;
    }
    proof {
        lemma_before_first_absent(s@, c);
    }
    n
}

/// The path tail of `s`: everything after the last `/`, or all of `s` when
/// there is no `/`; `None` when that tail is empty.
pub open spec fn file_name_spec(s: Seq<char>) -> Option<Seq<char>> {
    let tail = s.subrange(after_last(s, '/'), s.len() as int);
    if tail.len() == 0 {
        None
    } else {
        Some(tail)
    }
}

/// The file name a path or URL ends in, as `file_name_spec` gives it.
pub fn file_name(s: &str) -> (r: Option<String>)
    ensures
        r is Some <==> file_name_spec(s@) is Some,
        r is Some ==> r->0@ == file_name_spec(s@)->0,
{
    proof {
        lemma_after_last_bounds(s@, '/');
    }
    let cut = char_rfind(s, '/');
    let n = s.unicode_len();
    if cut == n {
        None
    } else {
        let tail = s.substring_char(cut, n);
        Some(tail.to_owned())
    }
}

/// The extension of the path tail of `s`: everything after the last `.` of
/// the tail; `None` when the tail has no `.` or the part after it is empty.
pub open spec fn extension_spec(s: Seq<char>) -> Option<Seq<char>> {
    match file_name_spec(s) {
        None => None,
        Some(name) => {
            let cut = after_last(name, '.');
            let ext = name.subrange(cut, name.len() as int);
            if cut == 0 || ext.len() == 0 {
                None
            } else {
                Some(ext)
            }
        },
    }
}

/// The file extension at the end of a path, as `extension_spec` gives it.
pub fn extension(s: &str) -> (r: Option<String>)
    ensures
        r is Some <==> extension_spec(s@) is Some,
        r is Some ==> r->0@ == extension_spec(s@)->0,
{
    let name = match file_name(s) {
        None => {
            return None;
        },
        Some(name) => name,
    };
    proof {
        lemma_after_last_bounds(name@, '.');
    }
    let cut = char_rfind(name.as_str(), '.');
    let n = name.as_str().unicode_len();
    if cut == 0 || cut == n {
        None
    } else {
        let ext = name.as_str().substring_char(cut, n);
        Some(ext.to_owned())
    }
}

/// The extension of a URL's path: the part before any query string is taken
/// first, then its extension.
pub open spec fn url_path_ext_spec(s: Seq<char>) -> Option<Seq<char>> {
    extension_spec(s.take(before_first(s, '?')))
}

/// The file extension of the path part of a URL, ignoring any `?query`.
pub fn url_path_ext(s: &str) -> (r: Option<String>)
    ensures
        r is Some <==> url_path_ext_spec(s@) is Some,
        r is Some ==> r->0@ == url_path_ext_spec(s@)->0,
{
    let cut = char_find(s, '?');
    proof {
        lemma_before_first_bounds(s@, '?');
    }
    let path = s.substring_char(0, cut);
    proof {
        assert(path@ =~= s@.take(before_first(s@, '?')));
    }
    extension(path)
}

/// `dir` and `name` joined with a single `/`.
pub open spec fn path_join_spec(dir: Seq<char>, name: Seq<char>) -> Seq<char> {
    dir + seq!['/'] + name
}

/// Joins a directory path and a file name with `/`.
pub fn path_join(dir: &str, name: &str) -> (r: String)
    ensures
        r@ == path_join_spec(dir@, name@),
{
    proof {
        reveal_strlit("/");
        assert("/"@ =~= seq!['/']);
    }
    let joined = dir.to_owned().concat("/").concat(name);
    proof {
        assert(joined@ =~= path_join_spec(dir@, name@));
    }
    joined
}

/// The decimal digit character for `d`.
pub open spec fn dec_digit(d: int) -> char {
    seq!['0', '1', '2', '3', '4', '5', '6', '7', '8', '9'][d]
}

/// The decimal representation of `n`, most significant digit first.
pub open spec fn dec_str(n: nat) -> Seq<char>
    decreases n,
{
    if n < 10 {
        seq![dec_digit(n as int)]
    } else {
        dec_str(n / 10) + seq![dec_digit((n % 10) as int)]
    }
}

/// One decimal digit as a string.
fn digit_string(d: u64) -> (r: String)
    requires
        d < 10,
    ensures
        r@ =~= seq![dec_digit(d as int)],
{
    let digits = "0123456789";
    proof {
        reveal_strlit("0123456789");
    }
    let one = digits.substring_ascii(d as usize, d as usize + 1);
    one.to_owned()
}

/// `n` written in decimal.
pub fn u64_string(n: u64) -> (r: String)
    ensures
        r@ == dec_str(n as nat),
{
    if n < 10 {
        return digit_string(n);
    }
    let mut acc = String::new();
    let mut m: u64 = n;
    while m > 0
        invariant
            m > 0 ==> dec_str(n as nat) =~= dec_str(m as nat) + acc@,
            m == 0 ==> dec_str(n as nat) =~= acc@,
        decreases m,
    {
        let d = m % 10;
        let rest = m / 10;
        let digit = digit_string(d);
        proof {
            if rest > 0 {
                assert(dec_str(m as nat) =~= dec_str(rest as nat) + seq![
                    dec_digit((m % 10) as int),
                ]);
                assert(dec_str(n as nat) =~= dec_str(rest as nat) + (digit@ + acc@));
            } else {
                assert(dec_str(m as nat) =~= seq![dec_digit(m as int)]);
                assert(dec_str(n as nat) =~= digit@ + acc@);
            }
        }
        acc = digit.concat(acc.as_str());
        m = rest;
    }
    acc
}

/// Whether `a` and `b` hold the same characters.
pub fn str_eq(a: &str, b: &str) -> (r: bool)
    ensures
        r == (a@ == b@),
{
    let x = a.to_owned();
    let y = b.to_owned();
    x == y
}

/// Whether some string in `v` holds exactly the characters `s`.
pub open spec fn seq_contains_string(v: Seq<String>, s: Seq<char>) -> bool {
    exists|i: int| 0 <= i < v.len() && v[i]@ == s
}

/// Whether `v` holds a string equal to `s`.
pub fn contains_str(v: &Vec<String>, s: &str) -> (r: bool)
    ensures
        r == seq_contains_string(v@, s@),
{
    let mut i: usize = 0;
    while i < v.len()
        invariant
            0 <= i <= v@.len(),
            forall|j: int| 0 <= j < i ==> v@[j]@ != s@,
        decreases v@.len() - i,
    {
        if str_eq(v[i].as_str(), s) {
            return true;
        }
        i = i + 1;
    }
    false
}

/// The value the first pair with key `k` carries, searched front to back.
pub open spec fn assoc_lookup<T>(m: Seq<(String, T)>, k: Seq<char>) -> Option<T>
    decreases m.len(),
{
    if m.len() == 0 {
        None
    } else if m[0].0@ == k {
        Some(m[0].1)
    } else {
        assoc_lookup(m.drop_first(), k)
    }
}

proof fn lemma_assoc_lookup_at<T>(m: Seq<(String, T)>, k: Seq<char>, i: int)
    requires
        0 <= i < m.len(),
        m[i].0@ == k,
        forall|j: int| 0 <= j < i ==> m[j].0@ != k,
    ensures
        assoc_lookup(m, k) == Some(m[i].1),
    decreases m.len(),
{
    if m[0].0@ != k {
        lemma_assoc_lookup_at(m.drop_first(), k, i - 1);
    }
}

proof fn lemma_assoc_lookup_absent<T>(m: Seq<(String, T)>, k: Seq<char>)
    requires
        forall|j: int| 0 <= j < m.len() ==> m[j].0@ != k,
    ensures
        assoc_lookup(m, k) is None,
    decreases m.len(),
{
    if m.len() > 0 {
        lemma_assoc_lookup_absent(m.drop_first(), k);
    }
}

/// The value stored under key `k` in an association list, if any.
pub fn assoc_get<'a, T>(m: &'a Vec<(String, T)>, k: &str) -> (r: Option<&'a T>)
    ensures
        r is Some <==> assoc_lookup(m@, k@) is Some,
        r matches Some(v) ==> assoc_lookup(m@, k@) == Some(*v),
{
    let mut i: usize = 0;
    while i < m.len()
        invariant
            0 <= i <= m@.len(),
            forall|j: int| 0 <= j < i ==> m@[j].0@ != k@,
        decreases m@.len() - i,
    {
        if str_eq(m[i].0.as_str(), k) {
            proof {
                lemma_assoc_lookup_at(m@, k@, i as int);
            }
            return Some(&m[i].1);
        }
        i = i + 1;
    }
    proof {
        lemma_assoc_lookup_absent(m@, k@);
    }
    None
}

} // verus!
