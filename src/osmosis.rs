use vstd::prelude::*;
use crate::map::LonLat;
use crate::neighborhood::NeighborhoodBuilder;

verus! {

/// Fixed-point units per degree.
pub const UNITS_PER_DEGREE: u32 = 10_000_000;

pub open spec fn digit_char(d: nat) -> char {
    seq!['0', '1', '2', '3', '4', '5', '6', '7', '8', '9'][(d % 10) as int]
}

/// The decimal digits of `n`, without leading zeros.
pub open spec fn nat_digits(n: nat) -> Seq<char>
    decreases n,
{
    if n < 10 {
        seq![digit_char(n)]
    } else {
        nat_digits(n / 10).push(digit_char(n % 10))
    }
}

/// The last `k` decimal digits of `n`, padded with zeros.
pub open spec fn padded_digits(n: nat, k: nat) -> Seq<char>
    decreases k,
{
    if k == 0 {
        seq![]
    } else {
        padded_digits(n / 10, (k - 1) as nat).push(digit_char(n % 10))
    }
}

/// The last `k` decimal digits of `n`, padded with zeros on the left, with the
/// zeros at their end dropped.
pub open spec fn trimmed_digits(n: nat, k: nat) -> Seq<char>
    decreases k,
{
    if k == 0 {
        seq![]
    } else if n % 10 == 0 {
        trimmed_digits(n / 10, (k - 1) as nat)
    } else {
        padded_digits(n, k)
    }
}

/// A fixed-point coordinate in decimal degrees, in its shortest form: up to
/// seven decimals without trailing zeros, and no dot for a whole degree.
pub open spec fn degrees_text(v: i32) -> Seq<char> {
    let mag = if v < 0 { -v } else { v as int };
    let frac = (mag % 10_000_000) as nat;
    (if v < 0 { seq!['-'] } else { seq![] }) + nat_digits((mag / 10_000_000) as nat) + if frac == 0 {
        seq![]
    } else {
        seq!['.'] + trimmed_digits(frac, 7)
    }
}

/// One vertex line: five spaces, longitude, four spaces, latitude.
pub open spec fn vertex_line(g: LonLat) -> Seq<char> {
    seq![' ', ' ', ' ', ' ', ' '] + degrees_text(g.longitude) + seq![' ', ' ', ' ', ' ']
        + degrees_text(g.latitude) + seq!['\n']
}

pub open spec fn vertex_lines(pts: Seq<LonLat>, n: int) -> Seq<char>
    decreases n,
{
    if n <= 0 {
        seq![]
    } else {
        vertex_lines(pts, n - 1) + vertex_line(pts[n - 1])
    }
}

/// The polygon-filter text after its name line: the ring number `1`, each
/// vertex, the first vertex again to close the ring, and two `END` lines.
pub open spec fn osmosis_body_spec(pts: Seq<LonLat>) -> Seq<char> {
    seq!['1', '\n'] + vertex_lines(pts, pts.len() as int) + vertex_line(pts[0]) + seq![
        'E',
        'N',
        'D',
        '\n',
        'E',
        'N',
        'D',
        '\n',
    ]
}

fn digit(d: u32) -> (r: char)
    requires
        d < 10,
    ensures
        r == digit_char(d as nat),
{
    let table = ['0', '1', '2', '3', '4', '5', '6', '7', '8', '9'];
    proof {
        assert(table@ =~= seq!['0', '1', '2', '3', '4', '5', '6', '7', '8', '9']);
    }
    table[d as usize]
}

fn push_str(out: &mut Vec<char>, s: &[char])
    ensures
        final(out)@ == old(out)@ + s@,
{
    let mut i: usize = 0;
    while i < s.len()
        invariant
            i <= s@.len(),
            out@ == old(out)@ + s@.take(i as int),
        decreases s@.len() - i,
    {
        out.push(s[i]);
        i = i + 1;
        assert(out@ =~= old(out)@ + s@.take(i as int));
    }
    assert(s@.take(i as int) =~= s@);
}

fn push_nat_digits(out: &mut Vec<char>, n: u32)
    ensures
        final(out)@ == old(out)@ + nat_digits(n as nat),
    decreases n,
{
    if n >= 10 {
        push_nat_digits(out, n / 10);
    }
    out.push(digit(n % 10));
    assert(out@ =~= old(out)@ + nat_digits(n as nat));
}

fn push_padded_digits(out: &mut Vec<char>, n: u32, k: u32)
    ensures
        final(out)@ == old(out)@ + padded_digits(n as nat, k as nat),
    decreases k,
{
    if k > 0 {
        push_padded_digits(out, n / 10, k - 1);
        out.push(digit(n % 10));
        assert(out@ =~= old(out)@ + padded_digits(n as nat, k as nat));
    } else {
        assert(out@ =~= old(out)@ + padded_digits(n as nat, k as nat));
    }
}

fn push_trimmed_digits(out: &mut Vec<char>, n: u32, k: u32)
    ensures
        final(out)@ == old(out)@ + trimmed_digits(n as nat, k as nat),
    decreases k,
{
    if k == 0 {
        assert(out@ =~= old(out)@ + trimmed_digits(n as nat, k as nat));
    } else if n % 10 == 0 {
        push_trimmed_digits(out, n / 10, k - 1);
    } else {
        push_padded_digits(out, n, k);
    }
}

fn push_degrees(out: &mut Vec<char>, v: i32)
    ensures
        final(out)@ == old(out)@ + degrees_text(v),
{
    let mag: u32 = if v < 0 {
        (-(v as i64)) as u32
    } else {
        v as u32
    };
    let ghost start = out@;
    if v < 0 {
        out.push('-');
    }
    push_nat_digits(out, mag / UNITS_PER_DEGREE);
    let frac = mag % UNITS_PER_DEGREE;
    if frac != 0 {
        out.push('.');
        push_trimmed_digits(out, frac, 7);
    }
    assert(out@ =~= start + degrees_text(v));
}

fn push_vertex_line(out: &mut Vec<char>, g: LonLat)
    ensures
        final(out)@ == old(out)@ + vertex_line(g),
{
    let ghost start = out@;
    push_str(out, &[' ', ' ', ' ', ' ', ' ']);
    push_degrees(out, g.longitude);
    push_str(out, &[' ', ' ', ' ', ' ']);
    push_degrees(out, g.latitude);
    out.push('\n');
    assert(out@ =~= start + vertex_line(g));
}

impl NeighborhoodBuilder {
    /// The polygon-filter export of the neighborhood, after its name line.
    pub fn osmosis_body(&self) -> (r: Vec<char>)
        requires
            self.points@.len() >= 1,
        ensures
            r@ == osmosis_body_spec(self.points@),
    {
        let mut out: Vec<char> = Vec::new();
        out.push('1');
        out.push('\n');
        let mut i: usize = 0;
        while i < self.points.len()
            invariant
                i <= self.points@.len(),
                out@ == seq!['1', '\n'] + vertex_lines(self.points@, i as int),
            decreases self.points@.len() - i,
        {
            push_vertex_line(&mut out, self.points[i]);
            i = i + 1;
            assert(out@ =~= seq!['1', '\n'] + vertex_lines(self.points@, i as int));
        }
        push_vertex_line(&mut out, self.points[0]);
        push_str(&mut out, &['E', 'N', 'D', '\n', 'E', 'N', 'D', '\n']);
        assert(out@ =~= osmosis_body_spec(self.points@));
        out
    }
}

} // verus!
