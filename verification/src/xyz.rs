//! The text of a trajectory frame.

use vstd::prelude::*;
use vstd::string::StringExecFns;

use crate::types::Particle;
use crate::types::WritableTuple;

verus! {

/// The character of a decimal digit.
pub open spec fn digit(d: nat) -> char {
    if d == 0 {
        '0'
    } else if d == 1 {
        '1'
    } else if d == 2 {
        '2'
    } else if d == 3 {
        '3'
    } else if d == 4 {
        '4'
    } else if d == 5 {
        '5'
    } else if d == 6 {
        '6'
    } else if d == 7 {
        '7'
    } else if d == 8 {
        '8'
    } else {
        '9'
    }
}

/// The decimal digits of `n`, most significant first, without leading zeros.
pub open spec fn decimal(n: nat) -> Seq<char>
    decreases n,
{
    if n < 10 {
        seq![digit(n)]
    } else {
        decimal(n / 10).push(digit(n % 10))
    }
}

/// One line of a frame: the particle's index, its position and its velocity,
/// separated by tabs and closed by a line feed.
pub open spec fn line_text(index: nat, position: Seq<char>, velocity: Seq<char>) -> Seq<char> {
    decimal(index) + seq!['\t'] + position + seq!['\t'] + velocity + seq!['\n']
}

/// The lines of the first `count` particles, in order. A row holds the text of
/// a particle's position and that of its velocity.
pub open spec fn lines_text(rows: Seq<(String, String)>, count: nat) -> Seq<char>
    decreases count,
{
    if count == 0 {
        Seq::empty()
    } else {
        lines_text(rows, (count - 1) as nat) + line_text(
            (count - 1) as nat,
            rows[count - 1].0@,
            rows[count - 1].1@,
        )
    }
}

/// A frame: a header line with the number of particles, then one line per
/// particle.
pub open spec fn frame_text(rows: Seq<(String, String)>) -> Seq<char> {
    decimal(rows.len()) + seq!['\n'] + lines_text(rows, rows.len())
}

/// Each row holds what `write` can give for the position and for the velocity
/// of the particle with the row's index.
pub open spec fn written<P: WritableTuple, V: WritableTuple>(
    particles: Seq<Particle<P, V>>,
    rows: Seq<(String, String)>,
) -> bool {
    &&& rows.len() == particles.len()
    &&& forall|i: int|
        0 <= i < rows.len() ==> {
            &&& call_ensures(P::write, (&particles[i].position,), (#[trigger] rows[i]).0)
            &&& call_ensures(V::write, (&particles[i].velocity,), rows[i].1)
        }
}

/// The text of one decimal digit.
fn digit_str(d: usize) -> (s: &'static str)
    requires
        d < 10,
    ensures
        s@ == seq![digit(d as nat)],
{
    proof {
        reveal_strlit("0");
        reveal_strlit("1");
        reveal_strlit("2");
        reveal_strlit("3");
        reveal_strlit("4");
        reveal_strlit("5");
        reveal_strlit("6");
        reveal_strlit("7");
        reveal_strlit("8");
        reveal_strlit("9");
    }
    let s = if d == 0 {
        "0"
    } else if d == 1 {
        "1"
    } else if d == 2 {
        "2"
    } else if d == 3 {
        "3"
    } else if d == 4 {
        "4"
    } else if d == 5 {
        "5"
    } else if d == 6 {
        "6"
    } else if d == 7 {
        "7"
    } else if d == 8 {
        "8"
    } else {
        "9"
    };
    assert(s@ =~= seq![digit(d as nat)]);
    s
}

/// Appends the decimal digits of `n` to `text`.
pub fn push_decimal(text: &mut String, n: usize)
    ensures
        final(text)@ == old(text)@ + decimal(n as nat),
    decreases n,
{
    if n >= 10 {
        push_decimal(text, n / 10);
    }
    text.append(digit_str(n % 10));
    assert(text@ =~= old(text)@ + decimal(n as nat));
}

/// Lays out a frame from the texts of the particles' positions and velocities.
pub fn layout_frame(rows: &Vec<(String, String)>) -> (text: String)
    ensures
        text@ == frame_text(rows@),
{
    proof {
        reveal_strlit("\n");
        reveal_strlit("\t");
    }
    let n = rows.len();
    let mut text = String::new();
    push_decimal(&mut text, n);
    text.append("\n");
    let ghost header = text@;
    assert(header =~= decimal(n as nat) + seq!['\n']);
    let mut i: usize = 0;
    while i < n
        invariant
            i <= n,
            n == rows@.len(),
            "\n"@ == seq!['\n'],
            "\t"@ == seq!['\t'],
            text@ == header + lines_text(rows@, i as nat),
        decreases n - i,
    {
        let ghost before = text@;
        push_decimal(&mut text, i);
        text.append("\t");
        text.append(rows[i].0.as_str());
        text.append("\t");
        text.append(rows[i].1.as_str());
        text.append("\n");
        assert(text@ =~= before + line_text(i as nat, rows@[i as int].0@, rows@[i as int].1@));
        i += 1;
        assert(text@ =~= header + lines_text(rows@, i as nat));
    }
    text
}

/// Formats a frame of a trajectory: writes the position and the velocity of
/// each particle and lays the texts out.
/// * `particles` - slice of particles
pub fn format_frame<P: WritableTuple, V: WritableTuple>(particles: &[Particle<P, V>]) -> (text:
    String)
    ensures
        exists|rows: Seq<(String, String)>|
            #[trigger] written(particles@, rows) && text@ == frame_text(rows),
{
    let n = particles.len();
    let mut rows: Vec<(String, String)> = Vec::new();
    let mut i: usize = 0;
    while i < n
        invariant
            i <= n,
            n == particles@.len(),
            rows@.len() == i,
            forall|k: int|
                0 <= k < i ==> {
                    &&& call_ensures(P::write, (&particles@[k].position,), (#[trigger] rows@[k]).0)
                    &&& call_ensures(V::write, (&particles@[k].velocity,), rows@[k].1)
                },
        decreases n - i,
    {
        let position = particles[i].position.write();
        let velocity = particles[i].velocity.write();
        rows.push((position, velocity));
        i += 1;
    }
    assert(written(particles@, rows@));
    layout_frame(&rows)
}

} // verus!
