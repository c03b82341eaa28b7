//! Text rendering of graph lines: the compute half of writing a graph out.
//! One line per vertex: `Vertex <id>: <neighbor> <weight> -> ...`.

use vstd::prelude::*;

verus! {

broadcast use vstd::string::group_string_axioms;

/// The decimal digit characters, indexable by digit value.
pub open spec fn digit_char(d: int) -> char {
    "0123456789"@[d]
}

/// Decimal digits of `n`, most significant first.
pub open spec fn dec_digits(n: nat) -> Seq<char>
    decreases n,
{
    if n < 10 {
        seq![digit_char(n as int)]
    } else {
        dec_digits(n / 10).push(digit_char((n % 10) as int))
    }
}

/// Decimal rendering of `v`, with a leading minus sign when negative.
pub open spec fn int_chars(v: int) -> Seq<char> {
    if v < 0 {
        seq!['-'] + dec_digits((-v) as nat)
    } else {
        dec_digits(v as nat)
    }
}

/// Appends the decimal digits of `n` to `s`.
fn push_dec_digits(s: &mut String, n: u64)
    ensures
        final(s)@ == old(s)@ + dec_digits(n as nat),
    decreases n,
{
    if n >= 10 {
        push_dec_digits(s, n / 10);
    }
    let d = (n % 10) as usize;
    let digits = "0123456789";
    proof {
        reveal_strlit("0123456789");
        assert(digits.is_ascii());
    }
    let c = digits.substring_ascii(d, d + 1);
    s.append(c);
    proof {
        assert(c@ =~= seq![digit_char((n % 10) as int)]);
        if n < 10 {
            assert(dec_digits(n as nat) =~= seq![digit_char(n as int)]);
            assert(final(s)@ =~= old(s)@ + dec_digits(n as nat));
        } else {
            assert(dec_digits(n as nat) == dec_digits((n as nat) / 10).push(
                digit_char((n % 10) as int),
            ));
            assert(final(s)@ =~= old(s)@ + dec_digits(n as nat));
        }
    }
}

/// Decimal rendering of a signed vertex id.
fn i64_to_string(v: i64) -> (r: String)
    ensures
        r@ == int_chars(v as int),
{
    let mut s = String::new();
    if v < 0 {
        s.append("-");
        let magnitude: u64 = ((-(v + 1)) as u64) + 1;
        push_dec_digits(&mut s, magnitude);
        proof {
            reveal_strlit("-");
            assert(magnitude as nat == (-(v as int)) as nat);
            assert(s@ =~= int_chars(v as int));
        }
    } else {
        push_dec_digits(&mut s, v as u64);
    }
    s
}

/// The rendering of one vertex line's head: `Vertex <id>: `.
pub open spec fn spec_vertex_head(vert: i64) -> Seq<char> {
    "Vertex "@ + int_chars(vert as int) + ": "@
}

/// Renders the head of a vertex line.
pub fn vertex_to_string(vert: i64) -> (r: String)
    ensures
        r@ == spec_vertex_head(vert),
{
    let mut s = String::from_str("Vertex ");
    let id = i64_to_string(vert);
    s.append(id.as_str());
    s.append(": ");
    proof {
        assert(s@ =~= spec_vertex_head(vert));
    }
    s
}

/// The rendering of one adjacency list: `<neighbor> <weight> -> ` per edge,
/// in list order.
pub open spec fn spec_edge_list(edges: Seq<(i64, u64)>) -> Seq<char>
    decreases edges.len(),
{
    if edges.len() == 0 {
        Seq::<char>::empty()
    } else {
        spec_edge_list(edges.drop_last()) + int_chars(edges.last().0 as int) + " "@ + dec_digits(
            edges.last().1 as nat,
        ) + " -> "@
    }
}

/// Renders an adjacency list.
pub fn edge_list_to_string(list: &Vec<(i64, u64)>) -> (r: String)
    ensures
        r@ == spec_edge_list(list@),
{
    let mut output = String::new();
    let mut i: usize = 0;
    proof {
        assert(output@ =~= spec_edge_list(list@.subrange(0, 0)));
    }
    while i < list.len()
        invariant
            i <= list@.len(),
            output@ == spec_edge_list(list@.subrange(0, i as int)),
        decreases list@.len() - i,
    {
        let edge = list[i];
        let vert_str = i64_to_string(edge.0);
        output.append(vert_str.as_str());
        output.append(" ");
        push_dec_digits(&mut output, edge.1);
        output.append(" -> ");
        proof {
            let pre = list@.subrange(0, i as int);
            let cur = list@.subrange(0, i + 1);
            assert(cur.drop_last() =~= pre);
            assert(cur.last() == list@[i as int]);
            assert(output@ =~= spec_edge_list(cur));
        }
        i = i + 1;
    }
    proof {
        assert(list@.subrange(0, list@.len() as int) =~= list@);
    }
    output
}

} // verus!
