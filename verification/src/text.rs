//! The text of numbers and of composed messages.

use vstd::prelude::*;
use vstd::string::StringExecFns;

verus! {

/// The character of the decimal digit `d`.
pub open spec fn digit_char(d: int) -> char {
    (0x30 + d) as char
}

/// The decimal text of `n`, without leading zeros.
pub open spec fn decimal(n: nat) -> Seq<char>
    decreases n,
{
    if n < 10 {
        seq![digit_char(n as int)]
    } else {
        decimal(n / 10).push(digit_char((n % 10) as int))
    }
}

/// Two numbers have the same decimal text only if they are the same.
pub proof fn law_decimal_tells_apart(a: nat, b: nat)
    ensures
        decimal(a) == decimal(b) ==> a == b,
    decreases a,
{
    if decimal(a) == decimal(b) {
        assert(decimal(a).last() == digit_char((a % 10) as int));
        assert(decimal(b).last() == digit_char((b % 10) as int));
        lemma_decimal_len(a);
        lemma_decimal_len(b);
        if a >= 10 && b >= 10 {
            assert(decimal(a).drop_last() =~= decimal(a / 10));
            assert(decimal(b).drop_last() =~= decimal(b / 10));
            law_decimal_tells_apart(a / 10, b / 10);
        }
    }
}

proof fn lemma_decimal_len(n: nat)
    ensures
        decimal(n).len() >= 1,
        n >= 10 ==> decimal(n).len() >= 2,
    decreases n,
{
    if n >= 10 {
        lemma_decimal_len(n / 10);
    }
}

fn digit_str(d: u64) -> (r: &'static str)
    requires
        d < 10,
    ensures
        r@ == seq![digit_char(d as int)],
{
    proof {
        reveal_strlit("0");
        reveal_strlit("1");
        reveal_strlit("2");
        reveal_strlit("3");
        reveal_strlit("4");
        reveal_strlit("5");
        reveal_strlit("6");
        reveal_strlit("7");
        reveal_strlit("8");
        reveal_strlit("9");
    }
    let r = match d {
        0 => "0",
        1 => "1",
        2 => "2",
        3 => "3",
        4 => "4",
        5 => "5",
        6 => "6",
        7 => "7",
        8 => "8",
        _ => "9",
    };
    assert(r@ =~= seq![digit_char(d as int)]);
    r
}

/// The decimal text of `n`.
pub fn decimal_text(n: u64) -> (r: String)
    ensures
        r@ == decimal(n as nat),
    decreases n,
{
    if n < 10 {
        digit_str(n).to_owned()
    } else {
        let mut s: String = decimal_text(n / 10);
        s.append(digit_str(n % 10));
        assert(s@ =~= decimal(n as nat));
        s
    }
}

/// `prefix` followed by the decimal text of `n`.
pub fn labelled(prefix: &str, n: u64) -> (r: String)
    ensures
        r@ == prefix@ + decimal(n as nat),
{
    let mut s: String = prefix.to_owned();
    s.append(decimal_text(n).as_str());
    s
}

/// The two texts one after the other.
pub fn joined(a: &str, b: &str) -> (r: String)
    ensures
        r@ == a@ + b@,
{
    let mut s: String = a.to_owned();
    s.append(b);
    s
}

/// The text that is there, if any.
pub open spec fn opt_text(o: Option<String>) -> Option<Seq<char>> {
    match o {
        Some(s) => Some(s@),
        None => None,
    }
}

/// The texts of a list.
pub open spec fn texts(v: Seq<String>) -> Seq<Seq<char>> {
    v.map_values(|s: String| s@)
}

/// The texts of a list that is there, if any.
pub open spec fn opt_texts(o: Option<Vec<String>>) -> Option<Seq<Seq<char>>> {
    match o {
        Some(v) => Some(texts(v@)),
        None => None,
    }
}

/// Whether a text reads like another.
pub fn same_text(a: &String, b: &str) -> (r: bool)
    ensures
        r == (a@ == b@),
{
    let b: String = b.to_owned();
    *a == b
}

/// Whether two optional texts are equal.
pub fn same_opt_text(a: &Option<String>, b: &Option<String>) -> (r: bool)
    ensures
        r == (opt_text(*a) == opt_text(*b)),
{
    match a {
        Some(x) => match b {
            Some(y) => *x == *y,
            None => false,
        },
        None => b.is_none(),
    }
}

/// Whether two lists of texts are equal.
pub fn same_texts(a: &Vec<String>, b: &Vec<String>) -> (r: bool)
    ensures
        r == (texts(a@) == texts(b@)),
{
    if a.len() != b.len() {
        assert(texts(a@).len() != texts(b@).len());
        return false;
    }
    let mut i: usize = 0;
    while i < a.len()
        invariant
            i <= a@.len() == b@.len(),
            forall|j: int| 0 <= j < i ==> (#[trigger] a@[j])@ == b@[j]@,
        decreases a@.len() - i,
    {
        if a[i] != b[i] {
            assert(texts(a@)[i as int] != texts(b@)[i as int]);
            return false;
        }
        i = i + 1;
    }
    assert(texts(a@) =~= texts(b@));
    true
}

/// Whether two optional lists of texts are equal.
pub fn same_opt_texts(a: &Option<Vec<String>>, b: &Option<Vec<String>>) -> (r: bool)
    ensures
        r == (opt_texts(*a) == opt_texts(*b)),
{
    match a {
        Some(x) => match b {
            Some(y) => same_texts(x, y),
            None => false,
        },
        None => b.is_none(),
    }
}

/// The same optional text once more.
pub fn copy_opt_text(a: &Option<String>) -> (r: Option<String>)
    ensures
        opt_text(r) == opt_text(*a),
{
    match a {
        Some(x) => Some(x.as_str().to_owned()),
        None => None,
    }
}

/// The same list of texts once more.
pub fn copy_texts(a: &Vec<String>) -> (r: Vec<String>)
    ensures
        texts(r@) == texts(a@),
{
    let mut out: Vec<String> = Vec::new();
    let mut i: usize = 0;
    while i < a.len()
        invariant
            i <= a@.len(),
            out@.len() == i,
            forall|j: int| 0 <= j < i ==> (#[trigger] out@[j])@ == a@[j]@,
        decreases a@.len() - i,
    {
        out.push(a[i].as_str().to_owned());
        i = i + 1;
    }
    assert(texts(out@) =~= texts(a@));
    out
}

/// The same optional list of texts once more.
pub fn copy_opt_texts(a: &Option<Vec<String>>) -> (r: Option<Vec<String>>)
    ensures
        opt_texts(r) == opt_texts(*a),
{
    match a {
        Some(x) => Some(copy_texts(x)),
        None => None,
    }
}

} // verus!
