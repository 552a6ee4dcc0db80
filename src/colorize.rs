use vstd::prelude::*;
use crate::resample::{blend_ready, is_resampling, lemma_resampling_keeps_ends, resample};

verus! {

/// Whether a character has Unicode's White_Space property.
pub uninterp spec fn white_space(c: char) -> bool;

/// Relies on char::is_whitespace: whether `c` has the White_Space property,
/// which depends on the character alone.
#[verifier::external_body]
fn is_whitespace(c: char) -> (r: bool)
    ensures
        r == white_space(c),
{
    c.is_whitespace()
}

/// A line that holds nothing but whitespace (the empty line included).
pub open spec fn blank(line: Seq<char>) -> bool {
    forall|i: int| 0 <= i < line.len() ==> white_space(#[trigger] line[i])
}

/// The values that color one line: the load carried over from the previous
/// line, then the readings that arrived since, in arrival order.
pub open spec fn sample_batch<T>(carried: T, samples: Seq<T>) -> Seq<T> {
    seq![carried] + samples
}

/// Whether a line is written as it is, leaving the terminal's current color in
/// force: a blank line, or one before which no new reading arrived.
pub open spec fn passes_through<T>(line: Seq<char>, samples: Seq<T>) -> bool {
    blank(line) || samples.len() == 0
}

/// The load carried to the next line once `line` is handled.
pub open spec fn carried_after<T>(carried: T, line: Seq<char>, samples: Seq<T>) -> T {
    if passes_through(line, samples) {
        carried
    } else {
        samples.last()
    }
}

/// A line before which no reading arrived is written as it is, and the load
/// carried past it is the one carried into it; so of two lines in a row with no
/// reading between them, the second changes neither color nor carried load.
pub proof fn lemma_quiet_line_keeps_load<T>(
    carried: T,
    first: Seq<char>,
    samples: Seq<T>,
    second: Seq<char>,
)
    ensures
        passes_through(second, Seq::<T>::empty()),
        carried_after(carried_after(carried, first, samples), second, Seq::<T>::empty())
            == carried_after(carried, first, samples),
        carried_after(carried_after(carried, first, Seq::<T>::empty()), second, Seq::<T>::empty())
            == carried,
{
}

/// How one line is to be written.
pub enum LineOutput<T> {
    /// Write the line unchanged, with no color directive.
    Plain,
    /// Write each character after setting the color of its load, in this order.
    Colored(Vec<(char, T)>),
}

/// `out` colors `line` from the batch `batch`: each character of the line, in
/// order, paired with the value the batch is resampled to at its index.
pub open spec fn colors_line<T, F: Fn(T, T, usize, usize) -> T>(
    line: Seq<char>,
    batch: Seq<T>,
    blend: F,
    out: Seq<(char, T)>,
) -> bool {
    &&& out.len() == line.len()
    &&& is_resampling(batch, line.len(), blend, out.map_values(|p: (char, T)| p.1))
    &&& forall|i: int| 0 <= i < line.len() ==> (#[trigger] out[i]).0 == line[i]
}

/// A colored line starts at the load carried into it and, when it has more than
/// one character, ends at the newest reading.
pub proof fn lemma_colored_line_ends<T, F: Fn(T, T, usize, usize) -> T>(
    carried: T,
    samples: Seq<T>,
    line: Seq<char>,
    blend: F,
    out: Seq<(char, T)>,
)
    requires
        line.len() > 0,
        samples.len() > 0,
        colors_line(line, sample_batch(carried, samples), blend, out),
    ensures
        out[0].1 == carried,
        line.len() > 1 ==> out[line.len() - 1].1 == samples.last(),
{
    let batch = sample_batch(carried, samples);
    let loads = out.map_values(|p: (char, T)| p.1);
    lemma_resampling_keeps_ends(batch, line.len(), blend, loads);
    assert(batch.last() == samples.last());
    assert(loads[0] == out[0].1);
    assert(loads[line.len() - 1] == out[line.len() - 1].1);
}

/// Whether every character of `line` is whitespace.
pub fn is_blank(line: &Vec<char>) -> (r: bool)
    ensures
        r == blank(line@),
{
    let mut i: usize = 0;
    while i < line.len()
        invariant
            i <= line@.len(),
            forall|j: int| 0 <= j < i ==> white_space(#[trigger] line@[j]),
        decreases line@.len() - i,
    {
        if !is_whitespace(line[i]) {
            return false;
        }
        i = i + 1;
    }
    true
}

/// Colors lines of text by load, carrying the last known load from one line to
/// the next so that a line with no new readings keeps the color already shown.
pub struct Colorizer<T> {
    last_load: T,
}

impl<T> View for Colorizer<T> {
    type V = T;

    closed spec fn view(&self) -> T {
        self.last_load
    }
}

impl<T: Copy> Colorizer<T> {
    /// A colorizer whose carried load starts at `initial_load`.
    pub fn new(initial_load: T) -> (r: Self)
        ensures
            r@ == initial_load,
    {
        Colorizer { last_load: initial_load }
    }

    /// The load carried over to the next line.
    pub fn last_load(&self) -> (r: T)
        ensures
            r == self@,
    {
        self.last_load
    }

    /// Decides how `line` is written, given the readings `samples` that arrived
    /// since the previous line, oldest first.
    ///
    /// A blank line is written as it is and leaves the carried load alone (its
    /// caller need not even collect readings for it). Any other line goes as
    /// `color_nonblank_line` says.
    pub fn color_line<F: Fn(T, T, usize, usize) -> T>(
        &mut self,
        line: &Vec<char>,
        samples: Vec<T>,
        blend: &F,
    ) -> (r: LineOutput<T>)
        requires
            blend_ready(*blend),
        ensures
            final(self)@ == carried_after(old(self)@, line@, samples@),
            passes_through(line@, samples@) <==> r is Plain,
            r matches LineOutput::Colored(out) ==> colors_line(
                line@,
                sample_batch(old(self)@, samples@),
                *blend,
                out@,
            ),
    {
        if is_blank(line) {
            return LineOutput::Plain;
        }
        assert(line@.len() > 0);
        self.color_nonblank_line(line, samples, blend)
    }

    /// Decides how a line that is not blank is written, given the readings
    /// `samples` that arrived since the previous line, oldest first.
    ///
    /// If no reading arrived, the line is written as it is and the carried load
    /// stays. Otherwise the batch of the carried load followed by the readings
    /// is resampled to the line's character count, each character is paired
    /// with its value, and the last reading becomes the carried load.
    pub fn color_nonblank_line<F: Fn(T, T, usize, usize) -> T>(
        &mut self,
        line: &Vec<char>,
        samples: Vec<T>,
        blend: &F,
    ) -> (r: LineOutput<T>)
        requires
            line@.len() > 0,
            blend_ready(*blend),
        ensures
            final(self)@ == (if samples@.len() == 0 {
                old(self)@
            } else {
                samples@.last()
            }),
            samples@.len() == 0 <==> r is Plain,
            r matches LineOutput::Colored(out) ==> colors_line(
                line@,
                sample_batch(old(self)@, samples@),
                *blend,
                out@,
            ),
    {
        if samples.len() == 0 {
            return LineOutput::Plain;
        }
        let ghost batch_spec = sample_batch(self@, samples@);
        let newest = samples[samples.len() - 1];
        let mut batch: Vec<T> = Vec::with_capacity(samples.len());
        batch.push(self.last_load);
        let mut k: usize = 0;
        while k < samples.len()
            invariant
                k <= samples@.len(),
                batch@ == sample_batch(self@, samples@.subrange(0, k as int)),
            decreases samples@.len() - k,
        {
            batch.push(samples[k]);
            k = k + 1;
            proof {
                assert(sample_batch(self@, samples@.subrange(0, k as int))
                    =~= sample_batch(self@, samples@.subrange(0, k - 1 as int)).push(samples@[k - 1]));
            }
        }
        assert(samples@.subrange(0, samples@.len() as int) =~= samples@);
        assert(batch@ == batch_spec);
        let n = line.len();
        let values = resample(batch, n, blend);
        let mut out: Vec<(char, T)> = Vec::with_capacity(n);
        let mut i: usize = 0;
        while i < n
            invariant
                n == line@.len(),
                values@.len() == n,
                i <= n,
                out@.len() == i,
                forall|j: int|
                    0 <= j < i ==> (#[trigger] out@[j]).0 == line@[j] && out@[j].1 == values@[j],
            decreases n - i,
        {
            out.push((line[i], values[i]));
            i = i + 1;
        }
        assert(out@.map_values(|p: (char, T)| p.1) =~= values@);
        self.last_load = newest;
        LineOutput::Colored(out)
    }
}

} // verus!
