//! Where the body of a crawled page is saved.
use vstd::prelude::*;

use crate::utils::text::string_from_chars;

verus! {

/// The ten decimal digits.
pub open spec fn digits() -> Seq<char> {
    seq!['0', '1', '2', '3', '4', '5', '6', '7', '8', '9']
}

/// The decimal representation of `n`, without leading zeros.
pub open spec fn decimal(n: nat) -> Seq<char>
    decreases n,
{
    if n < 10 {
        seq![digits()[n as int]]
    } else {
        decimal(n / 10) + seq![digits()[(n % 10) as int]]
    }
}

/// `"data/"`
pub open spec fn data_dir() -> Seq<char> {
    seq!['d', 'a', 't', 'a', '/']
}

/// `".html"`
pub open spec fn html_ext() -> Seq<char> {
    seq!['.', 'h', 't', 'm', 'l']
}

fn push_decimal(n: usize, out: &mut Vec<char>)
    ensures
        final(out)@ == old(out)@ + decimal(n as nat),
    decreases n,
{
    let table = ['0', '1', '2', '3', '4', '5', '6', '7', '8', '9'];
    assert(table@ =~= digits());
    if n >= 10 {
        push_decimal(n / 10, out);
    }
    out.push(table[n % 10]);
    assert(out@ =~= old(out)@ + decimal(n as nat));
}

/// The file that holds the body of page number `id`: `data/<id>.html`.
pub fn page_file_name(id: usize) -> (r: String)
    ensures
        r@ == data_dir() + decimal(id as nat) + html_ext(),
{
    let mut cs: Vec<char> = vec!['d', 'a', 't', 'a', '/'];
    assert(cs@ =~= data_dir());
    push_decimal(id, &mut cs);
    cs.push('.');
    cs.push('h');
    cs.push('t');
    cs.push('m');
    cs.push('l');
    assert(cs@ =~= data_dir() + decimal(id as nat) + html_ext());
    string_from_chars(&cs)
}

} // verus!
