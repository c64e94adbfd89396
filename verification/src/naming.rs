//! Names built from scraped data: the address of a novel's page, decimal
//! numerals, and file names free of reserved characters.

use vstd::prelude::*;
use vstd::string::StringExecFns;
use crate::text::split_first_char;

verus! {

/// The address of a novel's "all episodes" page, up to the novel's number.
pub const PAGE_ADDRESS: &'static str = "http://syosetu.org/?mode=ss_view_all&nid=";

/// The decimal digit for `d`, which is below ten.
pub open spec fn digit_char(d: nat) -> char {
    if d == 0 {
        '0'
    } else if d == 1 {
        '1'
    } else if d == 2 {
        '2'
    } else if d == 3 {
        '3'
    } else if d == 4 {
        '4'
    } else if d == 5 {
        '5'
    } else if d == 6 {
        '6'
    } else if d == 7 {
        '7'
    } else if d == 8 {
        '8'
    } else {
        '9'
    }
}

/// The decimal numeral of `n`, without leading zeros.
pub open spec fn decimal_spec(n: nat) -> Seq<char>
    decreases n,
{
    if n < 10 {
        seq![digit_char(n)]
    } else {
        decimal_spec(n / 10).push(digit_char(n % 10))
    }
}

/// The one-character text of the decimal digit `d`.
fn digit_str(d: u64) -> (s: &'static str)
    requires
        d < 10,
    ensures
        s@ == seq![digit_char(d as nat)],
{
    proof {
        reveal_strlit("0");
        reveal_strlit("1");
        reveal_strlit("2");
        reveal_strlit("3");
        reveal_strlit("4");
        reveal_strlit("5");
        reveal_strlit("6");
        reveal_strlit("7");
        reveal_strlit("8");
        reveal_strlit("9");
    }
    let s = if d == 0 {
        "0"
    } else if d == 1 {
        "1"
    } else if d == 2 {
        "2"
    } else if d == 3 {
        "3"
    } else if d == 4 {
        "4"
    } else if d == 5 {
        "5"
    } else if d == 6 {
        "6"
    } else if d == 7 {
        "7"
    } else if d == 8 {
        "8"
    } else {
        "9"
    };
    assert(s@ =~= seq![digit_char(d as nat)]);
    s
}

/// Appends the decimal numeral of `n` to `out`.
pub fn push_decimal(out: &mut String, n: u64)
    ensures
        final(out)@ == old(out)@ + decimal_spec(n as nat),
    decreases n,
{
    if n >= 10 {
        push_decimal(out, n / 10);
    }
    out.append(digit_str(n % 10));
    assert(final(out)@ =~= old(out)@ + decimal_spec(n as nat)) by {
        if n >= 10 {
            assert(decimal_spec(n as nat) == decimal_spec((n / 10) as nat).push(
                digit_char((n % 10) as nat),
            ));
        }
    }
}

/// The address of the page that lists all episodes of novel `id`.
pub open spec fn id_to_url_spec(id: u32) -> Seq<char> {
    PAGE_ADDRESS@ + decimal_spec(id as nat)
}

/// The address of the page that lists all episodes of novel `id`.
pub fn id_to_url(id: u32) -> (url: String)
    ensures
        url@ == id_to_url_spec(id),
{
    let mut url = String::from_str(PAGE_ADDRESS);
    push_decimal(&mut url, id as u64);
    url
}

/// `c` may not stand in a file name.
pub open spec fn is_reserved_spec(c: char) -> bool {
    c == '\\' || c == '/' || c == ':' || c == '*' || c == '?' || c == '"' || c == '<' || c == '>'
        || c == '|'
}

/// Whether `c` may not stand in a file name.
#[verifier::when_used_as_spec(is_reserved_spec)]
pub fn is_reserved(c: char) -> (b: bool)
    ensures
        b == is_reserved_spec(c),
{
    c == '\\' || c == '/' || c == ':' || c == '*' || c == '?' || c == '"' || c == '<' || c == '>'
        || c == '|'
}

/// `c`, or an underscore in place of a reserved character.
pub open spec fn sanitize_char(c: char) -> char {
    if is_reserved_spec(c) {
        '_'
    } else {
        c
    }
}

/// `s` with an underscore in place of each reserved character.
pub open spec fn sanitize_spec(s: Seq<char>) -> Seq<char> {
    s.map_values(|c: char| sanitize_char(c))
}

/// Copies `s`, writing an underscore in place of each character that may not
/// stand in a file name: `\ / : * ? " < > |`.
pub fn sanitize(s: &str) -> (r: String)
    ensures
        r@ == sanitize_spec(s@),
{
    let mut out = String::new();
    let mut rest: &str = s;
    let ghost mut n: int = 0;
    loop
        invariant
            0 <= n <= s@.len(),
            rest@ == s@.subrange(n, s@.len() as int),
            out@ == sanitize_spec(s@.subrange(0, n)),
        decreases s@.len() - n,
    {
        match split_first_char(rest) {
            None => {
                assert(s@.subrange(0, n) =~= s@);
                return out;
            },
            Some((c, head, tail)) => {
                let ghost before = out@;
                if is_reserved(c) {
                    proof {
                        reveal_strlit("_");
                    }
                    out.append("_");
                    assert(out@ =~= before.push('_'));
                } else {
                    out.append(head);
                    assert(out@ =~= before.push(c));
                }
                proof {
                    assert(c == s@[n]);
                    assert(tail@ =~= s@.subrange(n + 1, s@.len() as int));
                    assert(sanitize_spec(s@.subrange(0, n + 1)) =~= sanitize_spec(
                        s@.subrange(0, n),
                    ).push(sanitize_char(c)));
                    n = n + 1;
                }
                rest = tail;
            },
        }
    }
}

} // verus!
