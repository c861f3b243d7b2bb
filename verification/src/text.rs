use vstd::prelude::*;

verus! {

/// The parts joined by `sep`: `a`, `a sep b`, `a sep b sep c`, ...
pub open spec fn join_seqs(parts: Seq<Seq<char>>, sep: Seq<char>) -> Seq<char>
    decreases parts.len(),
{
    if parts.len() == 0 {
        seq![]
    } else if parts.len() == 1 {
        parts[0]
    } else {
        join_seqs(parts.drop_last(), sep) + sep + parts.last()
    }
}

/// The character sequences of a list of strings.
pub open spec fn string_views(strings: Seq<String>) -> Seq<Seq<char>> {
    strings.map_values(|s: String| s@)
}

/// Joins `parts` with `sep` between each two neighbours.
pub fn join_strings(parts: &Vec<String>, sep: &str) -> (joined: String)
    ensures
        joined@ == join_seqs(string_views(parts@), sep@),
{
    let mut joined = String::new();
    let ghost views = string_views(parts@);
    let mut i: usize = 0;
    while i < parts.len()
        invariant
            0 <= i <= parts.len(),
            views == string_views(parts@),
            joined@ == join_seqs(views.take(i as int), sep@),
        decreases parts.len() - i,
    {
        if i != 0 {
            joined.append(sep);
        }
        joined.append(parts[i].as_str());
        assert(views.take(i + 1).drop_last() =~= views.take(i as int));
        i = i + 1;
    }
    assert(views.take(parts.len() as int) =~= views);
    joined
}

/// Whether a string is exactly the text `text`.
pub fn string_is(s: &String, text: &str) -> (same: bool)
    ensures
        same == (s@ == text@),
{
    let other = String::from_str(text);
    s.eq(&other)
}

/// Whether the text `name` occurs in `names`.
pub fn contains_str(names: &Vec<String>, name: &str) -> (found: bool)
    ensures
        found == exists|i: int| 0 <= i < names@.len() && #[trigger] names@[i]@ == name@,
{
    let mut i: usize = 0;
    while i < names.len()
        invariant
            0 <= i <= names.len(),
            forall|j: int| 0 <= j < i ==> #[trigger] names@[j]@ != name@,
        decreases names.len() - i,
    {
        if string_is(&names[i], name) {
            assert(names@[i as int]@ == name@);
            return true;
        }
        i = i + 1;
    }
    false
}

/// Whether `name` occurs in `names`.
pub fn contains_string(names: &Vec<String>, name: &String) -> (found: bool)
    ensures
        found == exists|i: int| 0 <= i < names@.len() && #[trigger] names@[i]@ == name@,
{
    let mut i: usize = 0;
    while i < names.len()
        invariant
            0 <= i <= names.len(),
            forall|j: int| 0 <= j < i ==> #[trigger] names@[j]@ != name@,
        decreases names.len() - i,
    {
        if names[i].eq(name) {
            return true;
        }
        i = i + 1;
    }
    false
}

/// The character of a decimal digit.
pub open spec fn digit_char(d: nat) -> char {
    if d == 0 { '0' } else if d == 1 { '1' } else if d == 2 { '2' } else if d == 3 { '3' }
    else if d == 4 { '4' } else if d == 5 { '5' } else if d == 6 { '6' } else if d == 7 { '7' }
    else if d == 8 { '8' } else { '9' }
}

/// The decimal representation of `n`, without leading zeros.
pub open spec fn decimal(n: nat) -> Seq<char>
    decreases n,
{
    if n < 10 {
        seq![digit_char(n)]
    } else {
        decimal(n / 10) + seq![digit_char(n % 10)]
    }
}

fn digit_str(d: u64) -> (text: &'static str)
    requires
        d < 10,
    ensures
        text@ == seq![digit_char(d as nat)],
{
    proof {
        reveal_strlit("0");
        reveal_strlit("1");
        reveal_strlit("2");
        reveal_strlit("3");
        reveal_strlit("4");
        reveal_strlit("5");
        reveal_strlit("6");
        reveal_strlit("7");
        reveal_strlit("8");
        reveal_strlit("9");
    }
    if d == 0 { "0" } else if d == 1 { "1" } else if d == 2 { "2" } else if d == 3 { "3" }
    else if d == 4 { "4" } else if d == 5 { "5" } else if d == 6 { "6" } else if d == 7 { "7" }
    else if d == 8 { "8" } else { "9" }
}

/// Writes `n` in decimal.
pub fn decimal_string(n: u64) -> (text: String)
    ensures
        text@ == decimal(n as nat),
    decreases n,
{
    if n < 10 {
        String::from_str(digit_str(n))
    } else {
        let mut text = decimal_string(n / 10);
        text.append(digit_str(n % 10));
        text
    }
}

} // verus!
