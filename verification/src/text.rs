//! Small verified helpers on text: suffix tests, replacing a character,
//! decimal rendering and the parts of a file name.

use vstd::prelude::*;
use vstd::string::*;

verus! {

/// `s` with every `/` replaced by `_`; all other characters stay as they are.
pub open spec fn sanitized(s: Seq<char>) -> Seq<char> {
    Seq::new(s.len(), |i: int| if s[i] == '/' { '_' } else { s[i] })
}

/// Replacing the slashes keeps the length, leaves no slash, and changes no
/// other character.
pub proof fn lemma_sanitized(s: Seq<char>)
    ensures
        sanitized(s).len() == s.len(),
        !sanitized(s).contains('/'),
        forall|i: int| 0 <= i < s.len() && s[i] != '/' ==> sanitized(s)[i] == s[i],
        forall|i: int| 0 <= i < s.len() && s[i] == '/' ==> sanitized(s)[i] == '_',
{
}

/// The decimal digit for `d`, for `d` below ten.
pub open spec fn digit_char(d: int) -> char {
    if d == 0 {
        '0'
    } else if d == 1 {
        '1'
    } else if d == 2 {
        '2'
    } else if d == 3 {
        '3'
    } else if d == 4 {
        '4'
    } else if d == 5 {
        '5'
    } else if d == 6 {
        '6'
    } else if d == 7 {
        '7'
    } else if d == 8 {
        '8'
    } else {
        '9'
    }
}

/// The decimal rendering of `n`, without sign or leading zeros.
pub open spec fn decimal(n: nat) -> Seq<char>
    decreases n,
{
    if n < 10 {
        seq![digit_char(n as int)]
    } else {
        decimal(n / 10).push(digit_char((n % 10) as int))
    }
}

/// The characters of `s`, in order.
pub fn chars_of(s: &str) -> (v: Vec<char>)
    ensures
        v@ == s@,
{
    let mut v: Vec<char> = Vec::new();
    for c in it: s.chars()
        invariant
            it.seq() == s@,
            v@ == s@.take(it.index() as int),
    {
        v.push(c);
        assert(s@.take(it.index() + 1) =~= s@.take(it.index() as int).push(c));
    }
    assert(s@.take(s@.len() as int) =~= s@);
    v
}

/// Whether the characters `s` end with the characters `suffix`.
pub fn chars_end_with(s: &Vec<char>, suffix: &Vec<char>) -> (r: bool)
    ensures
        r == suffix@.is_suffix_of(s@),
{
    let n = s.len();
    let m = suffix.len();
    if m > n {
        return false;
    }
    let start = n - m;
    let ghost tail = s@.subrange(start as int, n as int);
    let mut i: usize = 0;
    while i < m
        invariant
            i <= m,
            m == suffix@.len(),
            n == s@.len(),
            start == n - m,
            tail == s@.subrange(start as int, n as int),
            forall|k: int| 0 <= k < i ==> suffix@[k] == tail[k],
        decreases m - i,
    {
        if s[start + i] != suffix[i] {
            assert(tail[i as int] != suffix@[i as int]);
            return false;
        }
        i += 1;
    }
    assert(suffix@ =~= tail);
    true
}

/// Whether `s` ends with `suffix`.
pub fn ends_with(s: &str, suffix: &str) -> (r: bool)
    ensures
        r == suffix@.is_suffix_of(s@),
{
    chars_end_with(&chars_of(s), &chars_of(suffix))
}

/// Whether two sequences of characters are the same.
pub fn chars_eq(a: &Vec<char>, b: &Vec<char>) -> (r: bool)
    ensures
        r == (a@ == b@),
{
    let n = a.len();
    if b.len() != n {
        return false;
    }
    let mut i: usize = 0;
    while i < n
        invariant
            i <= n,
            n == a@.len(),
            n == b@.len(),
            forall|k: int| 0 <= k < i ==> a@[k] == b@[k],
        decreases n - i,
    {
        if a[i] != b[i] {
            return false;
        }
        i += 1;
    }
    assert(a@ =~= b@);
    true
}

/// Whether two string slices hold the same characters.
pub fn str_eq(a: &str, b: &str) -> (r: bool)
    ensures
        r == (a@ == b@),
{
    chars_eq(&chars_of(a), &chars_of(b))
}

/// Replaces every `/` of `s` by `_`.
pub fn replace_slashes(s: &str) -> (r: String)
    ensures
        r@ == sanitized(s@),
{
    let chars = chars_of(s);
    let n = chars.len();
    let mut out = String::new();
    let mut i: usize = 0;
    while i < n
        invariant
            i <= n,
            n == s@.len(),
            chars@ == s@,
            out@ == sanitized(s@).take(i as int),
        decreases n - i,
    {
        let mut j: usize = i;
        while j < n && chars[j] != '/'
            invariant
                i <= j <= n,
                n == s@.len(),
                chars@ == s@,
                forall|k: int| i <= k < j ==> s@[k] != '/',
            decreases n - j,
        {
            j += 1;
        }
        out.append(s.substring_char(i, j));
        assert(out@ =~= sanitized(s@).take(j as int));
        if j < n {
            proof {
                reveal_strlit("_");
                assert("_"@ =~= seq!['_']);
            }
            out.append("_");
            assert(out@ =~= sanitized(s@).take(j + 1));
            i = j + 1;
        } else {
            i = j;
        }
    }
    assert(out@ =~= sanitized(s@));
    out
}

/// The string of one character that renders the digit `d`.
fn digit_str(d: usize) -> (r: &'static str)
    requires
        d < 10,
    ensures
        r@ == seq![digit_char(d as int)],
{
    proof {
        reveal_strlit("0");
        reveal_strlit("1");
        reveal_strlit("2");
        reveal_strlit("3");
        reveal_strlit("4");
        reveal_strlit("5");
        reveal_strlit("6");
        reveal_strlit("7");
        reveal_strlit("8");
        reveal_strlit("9");
    }
    let r = if d == 0 {
        "0"
    } else if d == 1 {
        "1"
    } else if d == 2 {
        "2"
    } else if d == 3 {
        "3"
    } else if d == 4 {
        "4"
    } else if d == 5 {
        "5"
    } else if d == 6 {
        "6"
    } else if d == 7 {
        "7"
    } else if d == 8 {
        "8"
    } else {
        "9"
    };
    assert(r@ =~= seq![digit_char(d as int)]);
    r
}

/// Renders `n` in decimal.
pub fn decimal_string(n: usize) -> (r: String)
    ensures
        r@ == decimal(n as nat),
    decreases n,
{
    if n < 10 {
        let mut out = String::new();
        out.append(digit_str(n));
        assert(out@ =~= decimal(n as nat));
        out
    } else {
        let mut out = decimal_string(n / 10);
        out.append(digit_str(n % 10));
        assert(out@ =~= decimal(n as nat));
        out
    }
}

/// `count` zeros.
pub open spec fn zeros(count: nat) -> Seq<char> {
    Seq::new(count, |i: int| '0')
}

/// The decimal rendering of `n`, with zeros put before it until it is
/// `width` characters long.
pub open spec fn zero_padded(n: nat, width: nat) -> Seq<char> {
    if decimal(n).len() >= width {
        decimal(n)
    } else {
        zeros((width - decimal(n).len()) as nat) + decimal(n)
    }
}

/// Renders `n` in decimal, with zeros put before it until it is `width`
/// characters long.
pub fn zero_padded_string(n: usize, width: usize) -> (r: String)
    ensures
        r@ == zero_padded(n as nat, width as nat),
{
    let digits = decimal_string(n);
    let len = digits.as_str().unicode_len();
    let mut out = String::new();
    let mut i: usize = len;
    assert(out@ =~= zeros(0));
    while i < width
        invariant
            len <= i,
            len == digits@.len(),
            len < width ==> i <= width,
            len >= width ==> i == len,
            out@ == zeros((i - len) as nat),
        decreases width - i,
    {
        proof {
            reveal_strlit("0");
            assert("0"@ =~= seq!['0']);
        }
        out.append("0");
        assert(out@ =~= zeros((i + 1 - len) as nat));
        i += 1;
    }
    out.append(digits.as_str());
    assert(out@ =~= zero_padded(n as nat, width as nat));
    out
}

/// The index of the last `.` in `name`, or -1 where it holds none.
pub open spec fn last_dot(name: Seq<char>) -> int
    decreases name.len(),
{
    if name.len() == 0 {
        -1
    } else if name.last() == '.' {
        name.len() - 1
    } else {
        last_dot(name.drop_last())
    }
}

/// The index of the dot that parts a file name into stem and extension. A
/// name has none if it holds no dot, if its only dot is its first character,
/// or if it is `..`.
pub open spec fn dot_split(name: Seq<char>) -> Option<int> {
    let p = last_dot(name);
    if p <= 0 || name == seq!['.', '.'] {
        None
    } else {
        Some(p)
    }
}

/// The stem of a file name: what stands before the parting dot, or the whole
/// name where there is no such dot.
pub open spec fn file_stem(name: Seq<char>) -> Seq<char> {
    match dot_split(name) {
        Some(p) => name.take(p),
        None => name,
    }
}

/// The extension of a file name: what stands after the parting dot, if any.
pub open spec fn file_extension(name: Seq<char>) -> Option<Seq<char>> {
    match dot_split(name) {
        Some(p) => Some(name.skip(p + 1)),
        None => None,
    }
}

/// `last_dot` names a dot, and no dot stands after it.
pub proof fn lemma_last_dot(name: Seq<char>)
    ensures
        -1 <= last_dot(name) < name.len(),
        last_dot(name) >= 0 ==> name[last_dot(name)] == '.',
        forall|i: int| last_dot(name) < i < name.len() ==> name[i] != '.',
    decreases name.len(),
{
    if name.len() > 0 && name.last() != '.' {
        lemma_last_dot(name.drop_last());
        assert forall|i: int| last_dot(name) < i < name.len() implies name[i] != '.' by {
            if i < name.len() - 1 {
                assert(name[i] == name.drop_last()[i]);
            }
        }
    }
}

/// A position that holds a dot with no dot after it is `last_dot`.
pub proof fn lemma_last_dot_unique(name: Seq<char>, p: int)
    requires
        -1 <= p < name.len(),
        p >= 0 ==> name[p] == '.',
        forall|i: int| p < i < name.len() ==> name[i] != '.',
    ensures
        last_dot(name) == p,
{
    lemma_last_dot(name);
    let q = last_dot(name);
    if q < p {
        assert(name[p] != '.');
    } else if p < q {
        assert(name[q] != '.');
    }
}

/// Finds the dot that parts the file name `name` into stem and extension.
fn find_dot_split(name: &Vec<char>) -> (r: Option<usize>)
    ensures
        match r {
            Some(p) => dot_split(name@) == Some(p as int) && p < name@.len(),
            None => dot_split(name@) is None,
        },
{
    let n = name.len();
    let mut i: usize = n;
    while i > 0
        invariant
            i <= n,
            n == name@.len(),
            forall|k: int| i <= k < n ==> name@[k] != '.',
        decreases i,
    {
        if name[i - 1] == '.' {
            proof {
                lemma_last_dot_unique(name@, i - 1);
            }
            if i == 1 {
                return None;
            }
            if n == 2 && name[0] == '.' {
                assert(name@ =~= seq!['.', '.']);
                return None;
            }
            assert(name@ != seq!['.', '.']) by {
                if name@ == seq!['.', '.'] {
                    assert(seq!['.', '.'].len() == 2);
                    assert(seq!['.', '.'][0] == '.');
                }
            }
            return Some(i - 1);
        }
        i -= 1;
    }
    proof {
        lemma_last_dot_unique(name@, -1);
    }
    None
}

/// The stem of the file name `name`.
pub fn stem_of(name: &str) -> (r: String)
    ensures
        r@ == file_stem(name@),
{
    let mut out = String::new();
    match find_dot_split(&chars_of(name)) {
        Some(p) => {
            out.append(name.substring_char(0, p));
            assert(out@ =~= name@.take(p as int));
        },
        None => {
            out.append(name);
            assert(out@ =~= name@);
        },
    }
    out
}

/// Whether the stem of the file name `name` is `base`.
pub fn stem_is(name: &str, base: &Vec<char>) -> (r: bool)
    ensures
        r == (file_stem(name@) == base@),
{
    let chars = chars_of(name);
    let len = match find_dot_split(&chars) {
        Some(p) => p,
        None => chars.len(),
    };
    assert(file_stem(name@) =~= name@.take(len as int));
    if base.len() != len {
        return false;
    }
    let mut i: usize = 0;
    while i < len
        invariant
            i <= len,
            len <= chars@.len(),
            len == base@.len(),
            file_stem(name@) == chars@.take(len as int),
            forall|k: int| 0 <= k < i ==> chars@[k] == base@[k],
        decreases len - i,
    {
        if chars[i] != base[i] {
            assert(chars@.take(len as int)[i as int] != base@[i as int]);
            return false;
        }
        i += 1;
    }
    assert(chars@.take(len as int) =~= base@);
    true
}

/// The extension of the file name `name`, if it has one.
pub fn extension_of(name: &str) -> (r: Option<String>)
    ensures
        match r {
            Some(e) => file_extension(name@) == Some(e@),
            None => file_extension(name@) is None,
        },
{
    let chars = chars_of(name);
    match find_dot_split(&chars) {
        Some(p) => {
            let n = chars.len();
            let mut out = String::new();
            out.append(name.substring_char(p + 1, n));
            assert(out@ =~= name@.skip(p + 1));
            Some(out)
        },
        None => None,
    }
}

} // verus!
