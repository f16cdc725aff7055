//! Plain text helpers: offset-to-position arithmetic, string equality,
//! and decimal rendering of counters.

use vstd::prelude::*;

verus! {

/// The 1-based line and column reached after reading all of `s`:
/// a newline advances the line and resets the column.
pub open spec fn line_col_scan(s: Seq<char>) -> (nat, nat)
    decreases s.len(),
{
    if s.len() == 0 {
        (1nat, 1nat)
    } else {
        let prev = line_col_scan(s.drop_last());
        if s.last() == '\n' {
            ((prev.0 + 1) as nat, 1nat)
        } else {
            (prev.0, (prev.1 + 1) as nat)
        }
    }
}

/// The characters of `s` before `offset`; an offset past the end means
/// the whole text.
pub open spec fn prefix_at(s: Seq<char>, offset: int) -> Seq<char> {
    if offset <= s.len() {
        s.take(offset)
    } else {
        s
    }
}

/// The 1-based line of the character at `offset` in `s`.
pub open spec fn line_at(s: Seq<char>, offset: int) -> nat {
    line_col_scan(prefix_at(s, offset)).0
}

/// The 1-based column of the character at `offset` in `s`.
pub open spec fn col_at(s: Seq<char>, offset: int) -> nat {
    line_col_scan(prefix_at(s, offset)).1
}

/// Both coordinates stay within one past the scanned length.
proof fn lemma_line_col_scan_bounds(s: Seq<char>)
    ensures
        1 <= line_col_scan(s).0 <= s.len() + 1,
        1 <= line_col_scan(s).1 <= s.len() + 1,
    decreases s.len(),
{
    if s.len() > 0 {
        lemma_line_col_scan_bounds(s.drop_last());
    }
}

/// Converts a character offset into a 1-based line and column by
/// scanning the text up to the offset and counting newlines.
pub fn offset_to_line_col(source: &str, offset: usize) -> (r: (usize, usize))
    requires
        source@.len() < usize::MAX,
    ensures
        r.0 == line_at(source@, offset as int),
        r.1 == col_at(source@, offset as int),
{
    let n = source.unicode_len();
    let end = if offset < n {
        offset
    } else {
        n
    };
    let mut line: usize = 1;
    let mut col: usize = 1;
    let mut i: usize = 0;
    proof {
        assert(source@.take(0) =~= Seq::<char>::empty());
    }
    while i < end
        invariant
            i <= end,
            end <= n,
            n == source@.len() < usize::MAX,
            end == if offset < n { offset as int } else { n as int },
            line == line_col_scan(source@.take(i as int)).0,
            col == line_col_scan(source@.take(i as int)).1,
        decreases end - i,
    {
        proof {
            lemma_line_col_scan_bounds(source@.take(i as int));
            assert(source@.take(i as int).len() == i);
        }
        let c = source.get_char(i);
        proof {
            assert(source@.take(i + 1).drop_last() =~= source@.take(i as int));
            assert(source@.take(i + 1).last() == source@[i as int]);
        }
        if c == '\n' {
            line = line + 1;
            col = 1;
        } else {
            col = col + 1;
        }
        i = i + 1;
    }
    proof {
        assert(prefix_at(source@, offset as int) =~= source@.take(end as int));
    }
    (line, col)
}

/// Character-for-character string equality, stated over the views.
pub fn str_eq(a: &str, b: &str) -> (r: bool)
    ensures
        r == (a@ == b@),
{
    let an = a.unicode_len();
    let bn = b.unicode_len();
    if an != bn {
        proof {
            assert(a@ != b@);
        }
        return false;
    }
    let mut i: usize = 0;
    while i < an
        invariant
            i <= an,
            an == a@.len(),
            an == b@.len(),
            forall|j: int| 0 <= j < i ==> a@[j] == b@[j],
        decreases an - i,
    {
        if a.get_char(i) != b.get_char(i) {
            proof {
                assert(a@ != b@);
            }
            return false;
        }
        i = i + 1;
    }
    proof {
        assert(a@ =~= b@);
    }
    true
}

/// The decimal digit character for one value below ten.
pub open spec fn dec_digit(n: nat) -> char {
    if n == 0 {
        '0'
    } else if n == 1 {
        '1'
    } else if n == 2 {
        '2'
    } else if n == 3 {
        '3'
    } else if n == 4 {
        '4'
    } else if n == 5 {
        '5'
    } else if n == 6 {
        '6'
    } else if n == 7 {
        '7'
    } else if n == 8 {
        '8'
    } else {
        '9'
    }
}

/// The usual decimal rendering of `n`, most significant digit first,
/// with no leading zero except for zero itself.
pub open spec fn dec_str(n: nat) -> Seq<char>
    decreases n,
{
    if n < 10 {
        seq![dec_digit(n)]
    } else {
        dec_str(n / 10).push(dec_digit(n % 10))
    }
}

/// One decimal digit as borrowed text.
fn digit_str(d: u64) -> (r: &'static str)
    requires
        d < 10,
    ensures
        r@ =~= seq![dec_digit(d as nat)],
{
    proof {
        reveal_strlit("0");
        reveal_strlit("1");
        reveal_strlit("2");
        reveal_strlit("3");
        reveal_strlit("4");
        reveal_strlit("5");
        reveal_strlit("6");
        reveal_strlit("7");
        reveal_strlit("8");
        reveal_strlit("9");
    }
    if d == 0 {
        "0"
    } else if d == 1 {
        "1"
    } else if d == 2 {
        "2"
    } else if d == 3 {
        "3"
    } else if d == 4 {
        "4"
    } else if d == 5 {
        "5"
    } else if d == 6 {
        "6"
    } else if d == 7 {
        "7"
    } else if d == 8 {
        "8"
    } else {
        "9"
    }
}

/// Renders `n` in decimal.
pub fn u64_to_string(n: u64) -> (s: String)
    ensures
        s@ == dec_str(n as nat),
    decreases n,
{
    if n < 10 {
        String::from_str(digit_str(n))
    } else {
        let mut s = u64_to_string(n / 10);
        s.append(digit_str(n % 10));
        proof {
            assert(dec_str((n / 10) as nat) + seq![dec_digit((n % 10) as nat)] =~= dec_str(
                n as nat,
            ));
        }
        s
    }
}

} // verus!
