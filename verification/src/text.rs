//! Text as sequences of characters: the helpers that the table and the
//! grouping are built from.

use vstd::prelude::*;

verus! {

/// The characters of a string, in order.
pub fn chars_of(s: &str) -> (chars: Vec<char>)
    ensures
        chars@ == s@,
{
    let mut chars: Vec<char> = Vec::new();
    for c in it: s.chars()
        invariant
            it.seq() == s@,
            chars@ == s@.take(it.index() as int),
    {
        proof {
            assert(s@.take(it.index() + 1) =~= s@.take(it.index() as int).push(c));
        }
        chars.push(c);
    }
    proof {
        assert(s@.take(s@.len() as int) =~= s@);
    }
    chars
}

/// A run of `n` spaces.
pub open spec fn blanks(n: nat) -> Seq<char> {
    Seq::new(n, |i: int| ' ')
}

/// A string of `n` spaces.
pub fn spaces(n: usize) -> (s: String)
    ensures
        s@ == blanks(n as nat),
{
    let mut s = String::new();
    let mut i: usize = 0;
    while i < n
        invariant
            i <= n,
            s@ == blanks(i as nat),
        decreases n - i,
    {
        proof {
            reveal_strlit(" ");
            assert(blanks(i as nat) + " "@ =~= blanks((i + 1) as nat));
        }
        s.append(" ");
        i = i + 1;
    }
    s
}

/// The separator of the segments of a path.
pub open spec fn is_separator(c: char) -> bool {
    c == '/'
}

/// The position of the last separator in `path`, or -1 where it has none.
pub open spec fn last_separator(path: Seq<char>) -> int
    decreases path.len(),
{
    if path.len() == 0 {
        -1
    } else if is_separator(path.last()) {
        path.len() - 1
    } else {
        last_separator(path.drop_last())
    }
}

/// The directory of a path: the text before its last separator. A path
/// without a separator has none. Nothing but the text decides.
pub open spec fn directory_of(path: Seq<char>) -> Option<Seq<char>> {
    if last_separator(path) < 0 {
        None
    } else {
        Some(path.take(last_separator(path)))
    }
}

/// What `last_separator` finds is the last separator, and -1 says that
/// there is none.
pub proof fn last_separator_is_last(path: Seq<char>)
    ensures
        -1 <= last_separator(path) < path.len(),
        last_separator(path) >= 0 ==> is_separator(path[last_separator(path)]),
        forall|j: int| last_separator(path) < j < path.len() ==> !is_separator(#[trigger] path[j]),
    decreases path.len(),
{
    if path.len() > 0 && !is_separator(path.last()) {
        last_separator_is_last(path.drop_last());
        assert forall|j: int| last_separator(path) < j < path.len() implies !is_separator(
            #[trigger] path[j],
        ) by {
            if j < path.len() - 1 {
                assert(path.drop_last()[j] == path[j]);
            }
        }
    }
}

/// A path made of a directory, one separator and a file name that holds no
/// separator has that directory.
pub proof fn directory_of_joined(dir: Seq<char>, file: Seq<char>)
    requires
        forall|j: int| 0 <= j < file.len() ==> !is_separator(#[trigger] file[j]),
    ensures
        directory_of(dir + seq!['/'] + file) == Some(dir),
{
    let path = dir + seq!['/'] + file;
    last_separator_is_last(path);
    let found = last_separator(path);
    let at = dir.len() as int;
    assert(path[at] == '/');
    if found < at {
        assert(!is_separator(path[at]));
    }
    if found > at {
        assert(path[found] == file[found - at - 1]);
    }
    assert(path.take(at) =~= dir);
}

/// A path without a separator has no directory.
pub proof fn directory_of_bare_name(path: Seq<char>)
    requires
        forall|j: int| 0 <= j < path.len() ==> !is_separator(#[trigger] path[j]),
    ensures
        directory_of(path) is None,
{
    last_separator_is_last(path);
}

/// The directory of `path`, where it has one.
pub fn parent_directory(path: &str) -> (dir: Option<String>)
    ensures
        match dir {
            Some(d) => directory_of(path@) == Some(d@),
            None => directory_of(path@) is None,
        },
{
    let chars = chars_of(path);
    let mut found: Option<usize> = None;
    let mut at: usize = 0;
    while at < chars.len()
        invariant
            chars@ == path@,
            at <= chars.len(),
            match found {
                Some(k) => k as int == last_separator(path@.take(at as int)),
                None => last_separator(path@.take(at as int)) == -1,
            },
        decreases chars.len() - at,
    {
        proof {
            let next = path@.take(at + 1);
            assert(next.drop_last() =~= path@.take(at as int));
            assert(next.last() == chars@[at as int]);
        }
        if chars[at] == '/' {
            found = Some(at);
        }
        at = at + 1;
    }
    proof {
        assert(path@.take(path@.len() as int) =~= path@);
        last_separator_is_last(path@);
    }
    match found {
        Some(k) => Some(path.substring_char(0, k).to_owned()),
        None => None,
    }
}

/// `a` and `b` agree before position `k`, and there `a` ends while `b` goes
/// on, or `a` holds the smaller character.
pub open spec fn decided_at(a: Seq<char>, b: Seq<char>, k: int) -> bool {
    &&& 0 <= k <= a.len()
    &&& k < b.len()
    &&& forall|j: int| 0 <= j < k ==> a[j] == b[j]
    &&& k < a.len() ==> (a[k] as int) < (b[k] as int)
}

/// The order of the keys: `a` stands before `b` as in a dictionary, the
/// characters ordered by their code points. This is the order of the strings
/// themselves.
pub open spec fn sorts_before(a: Seq<char>, b: Seq<char>) -> bool {
    exists|k: int| decided_at(a, b, k)
}

/// No text stands before itself.
pub proof fn sorts_before_irreflexive(a: Seq<char>)
    ensures
        !sorts_before(a, a),
{
}

/// The order is transitive.
pub proof fn sorts_before_transitive(a: Seq<char>, b: Seq<char>, c: Seq<char>)
    requires
        sorts_before(a, b),
        sorts_before(b, c),
    ensures
        sorts_before(a, c),
{
    let k1 = choose|k: int| decided_at(a, b, k);
    let k2 = choose|k: int| decided_at(b, c, k);
    if k1 <= k2 {
        assert(decided_at(a, c, k1));
    } else {
        assert(decided_at(a, c, k2));
    }
}

/// Two texts cannot stand before each other.
pub proof fn sorts_before_asymmetric(a: Seq<char>, b: Seq<char>)
    requires
        sorts_before(a, b),
    ensures
        !sorts_before(b, a),
        a != b,
{
    sorts_before_irreflexive(a);
    if sorts_before(b, a) {
        sorts_before_transitive(a, b, a);
    }
}

/// Of two different texts one stands before the other.
pub proof fn sorts_before_total(a: Seq<char>, b: Seq<char>)
    ensures
        a == b || sorts_before(a, b) || sorts_before(b, a),
{
    first_difference(a, b, 0);
}

/// Two texts that agree before position `from` are equal, or one stands
/// before the other.
proof fn first_difference(a: Seq<char>, b: Seq<char>, from: int)
    requires
        0 <= from <= a.len(),
        from <= b.len(),
        forall|j: int| 0 <= j < from ==> a[j] == b[j],
    ensures
        a == b || sorts_before(a, b) || sorts_before(b, a),
    decreases a.len() - from,
{
    if from == a.len() {
        if from == b.len() {
            assert(a =~= b);
        } else {
            assert(decided_at(a, b, from));
        }
    } else if from == b.len() {
        assert(decided_at(b, a, from));
    } else if a[from] == b[from] {
        first_difference(a, b, from + 1);
    } else if (a[from] as int) < (b[from] as int) {
        assert(decided_at(a, b, from));
    } else {
        assert(decided_at(b, a, from));
    }
}

/// Whether `a` stands before `b` in the order of the keys.
pub fn stands_before(a: &str, b: &str) -> (before: bool)
    ensures
        before == sorts_before(a@, b@),
{
    let x = chars_of(a);
    let y = chars_of(b);
    let mut i: usize = 0;
    while i < x.len() && i < y.len() && x[i] == y[i]
        invariant
            x@ == a@,
            y@ == b@,
            i <= x.len(),
            i <= y.len(),
            forall|j: int| 0 <= j < i ==> x@[j] == y@[j],
        decreases x.len() - i,
    {
        i = i + 1;
    }
    let before = i < y.len() && (i == x.len() || x[i] < y[i]);
    proof {
        if before {
            assert(decided_at(a@, b@, i as int));
        } else {
            assert forall|k: int| !decided_at(a@, b@, k) by {
                if decided_at(a@, b@, k) {
                    if k > i {
                        assert(a@[i as int] == b@[i as int]);
                    }
                }
            }
        }
    }
    before
}

/// Whether two texts are the same.
pub fn same_text(a: &str, b: &str) -> (same: bool)
    ensures
        same == (a@ == b@),
{
    let x = chars_of(a);
    let y = chars_of(b);
    if x.len() != y.len() {
        return false;
    }
    let mut i: usize = 0;
    while i < x.len()
        invariant
            x@ == a@,
            y@ == b@,
            x.len() == y.len(),
            i <= x.len(),
            forall|j: int| 0 <= j < i ==> x@[j] == y@[j],
        decreases x.len() - i,
    {
        if x[i] != y[i] {
            return false;
        }
        i = i + 1;
    }
    assert(a@ =~= b@);
    true
}

/// The ten decimal digits.
pub open spec fn digit(n: int) -> char {
    seq!['0', '1', '2', '3', '4', '5', '6', '7', '8', '9'][n]
}

/// A number in decimal, without leading zeros.
pub open spec fn decimal_text(n: nat) -> Seq<char>
    decreases n,
{
    if n < 10 {
        seq![digit(n as int)]
    } else {
        decimal_text(n / 10).push(digit((n % 10) as int))
    }
}

fn digit_text(n: usize) -> (text: &'static str)
    requires
        n < 10,
    ensures
        text@ == seq![digit(n as int)],
{
    proof {
        reveal_strlit("0");
        reveal_strlit("1");
        reveal_strlit("2");
        reveal_strlit("3");
        reveal_strlit("4");
        reveal_strlit("5");
        reveal_strlit("6");
        reveal_strlit("7");
        reveal_strlit("8");
        reveal_strlit("9");
    }
    let text = match n {
        0 => "0",
        1 => "1",
        2 => "2",
        3 => "3",
        4 => "4",
        5 => "5",
        6 => "6",
        7 => "7",
        8 => "8",
        _ => "9",
    };
    assert(text@ =~= seq![digit(n as int)]);
    text
}

/// Writes a number in decimal.
pub fn decimal(n: usize) -> (text: String)
    ensures
        text@ == decimal_text(n as nat),
    decreases n,
{
    if n < 10 {
        String::from_str(digit_text(n))
    } else {
        let mut text = decimal(n / 10);
        text.append(digit_text(n % 10));
        text
    }
}

} // verus!
