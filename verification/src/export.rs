//! The export formats a timing-point snapshot can be written to, and the
//! beatmap patch rule: how an existing beatmap's timing section is replaced
//! while every other line survives. Writing the numeric rows and the files
//! themselves is the export collaborator's job.

use vstd::prelude::*;
use vstd::string::{StringExecFns, StringSliceAdditionalSpecFns};

verus! {

/// A structured format the ordered timing points can be exported to.
#[derive(Clone, Copy, PartialEq, Eq, Structural, Debug)]
pub enum ExportFormat {
    Csv,
    Osu,
}

impl ExportFormat {
    /// The formats that target a game's own beatmap file rather than a
    /// generic table.
    pub fn game_formats() -> (r: Vec<ExportFormat>)
        ensures
            r@ == seq![ExportFormat::Osu],
    {
        let mut v: Vec<ExportFormat> = Vec::new();
        v.push(ExportFormat::Osu);
        proof {
            assert(v@ =~= seq![ExportFormat::Osu]);
        }
        v
    }

    /// The label the format selector shows.
    pub fn label(&self) -> (r: String)
        ensures
            self is Csv ==> r@ == "CSV (.csv)"@,
            self is Osu ==> r@ == "osu! (.osu)"@,
    {
        match self {
            ExportFormat::Csv => String::from_str("CSV (.csv)"),
            ExportFormat::Osu => String::from_str("osu! (.osu)"),
        }
    }
}

/// An ASCII whitespace byte, as `trim` removes at a line's ends.
pub open spec fn spec_is_space(b: u8) -> bool {
    b == 32 || b == 9 || b == 10 || b == 12 || b == 13
}

/// A line without its leading whitespace.
pub open spec fn spec_trim_front(s: Seq<u8>) -> Seq<u8>
    decreases s.len(),
{
    if s.len() > 0 && spec_is_space(s[0]) {
        spec_trim_front(s.drop_first())
    } else {
        s
    }
}

/// A line without its trailing whitespace.
pub open spec fn spec_trim_back(s: Seq<u8>) -> Seq<u8>
    decreases s.len(),
{
    if s.len() > 0 && spec_is_space(s.last()) {
        spec_trim_back(s.drop_last())
    } else {
        s
    }
}

/// The line that opens the timing section, up to surrounding whitespace.
pub open spec fn spec_is_timing_header(line: Seq<u8>) -> bool {
    spec_trim_back(spec_trim_front(line)) == "[TimingPoints]".spec_bytes()
}

/// A line without one carriage return before its line feed.
pub open spec fn spec_strip_cr(line: Seq<u8>) -> Seq<u8> {
    if line.len() > 0 && line.last() == 13 {
        line.drop_last()
    } else {
        line
    }
}

/// The lines of a byte stream, split at line feeds (a carriage return before
/// a line feed belongs to the ending); a final line needs no ending, and a
/// trailing ending opens no empty line.
pub open spec fn spec_split_rec(s: Seq<u8>, cur: Seq<u8>) -> Seq<Seq<u8>>
    decreases s.len(),
{
    if s.len() == 0 {
        if cur.len() == 0 {
            Seq::empty()
        } else {
            seq![cur]
        }
    } else if s[0] == 10 {
        seq![spec_strip_cr(cur)] + spec_split_rec(s.drop_first(), Seq::empty())
    } else {
        spec_split_rec(s.drop_first(), cur.push(s[0]))
    }
}

pub open spec fn spec_split_lines(s: Seq<u8>) -> Seq<Seq<u8>> {
    spec_split_rec(s, Seq::empty())
}

/// The replacement rows followed by their line endings.
pub open spec fn spec_join_timing(timing: Seq<Seq<u8>>) -> Seq<u8>
    decreases timing.len(),
{
    if timing.len() == 0 {
        Seq::empty()
    } else {
        timing[0] + seq![10u8] + spec_join_timing(timing.drop_first())
    }
}

/// The patched beatmap text: a timing-section header is kept and followed by
/// the replacement rows and a blank line; the old section's lines are
/// dropped until the next bracketed section begins; every other line
/// survives unchanged.
pub open spec fn spec_patch_rec(lines: Seq<Seq<u8>>, timing: Seq<Seq<u8>>, in_timing: bool) -> Seq<
    u8,
>
    decreases lines.len(),
{
    if lines.len() == 0 {
        Seq::empty()
    } else {
        let line = lines[0];
        let rest = lines.drop_first();
        if spec_is_timing_header(line) {
            line + seq![10u8] + spec_join_timing(timing) + seq![10u8] + spec_patch_rec(
                rest,
                timing,
                true,
            )
        } else {
            let still_in = in_timing && !(line.len() > 0 && line[0] == 91);
            if still_in {
                spec_patch_rec(rest, timing, still_in)
            } else {
                line + seq![10u8] + spec_patch_rec(rest, timing, still_in)
            }
        }
    }
}

/// What patching a beatmap produces from its text and the replacement rows.
pub open spec fn spec_osu_patch(contents: Seq<u8>, timing: Seq<Seq<u8>>) -> Seq<u8> {
    spec_patch_rec(spec_split_lines(contents), timing, false)
}

/// Appends a byte run.
fn append_bytes(out: &mut Vec<u8>, b: &Vec<u8>)
    ensures
        final(out)@ == old(out)@ + b@,
{
    let n = b.len();
    let mut i: usize = 0;
    while i < n
        invariant
            i <= n,
            n == b@.len(),
            out@ == old(out)@ + b@.subrange(0, i as int),
        decreases n - i,
    {
        out.push(b[i]);
        proof {
            assert(out@ =~= old(out)@ + b@.subrange(0, i + 1 as int));
        }
        i = i + 1;
    }
    proof {
        assert(out@ =~= old(out)@ + b@);
    }
}

/// Splits a byte stream into its lines; see `spec_split_lines` for the rule.
#[verifier::loop_isolation(false)]
pub fn split_lines(contents: &Vec<u8>) -> (r: Vec<Vec<u8>>)
    ensures
        r.deep_view() == spec_split_lines(contents@),
{
    let n = contents.len();
    let mut out: Vec<Vec<u8>> = Vec::new();
    let mut cur: Vec<u8> = Vec::new();
    let mut i: usize = 0;
    proof {
        assert(contents@.subrange(0, n as int) =~= contents@);
    }
    while i < n
        invariant
            i <= n,
            spec_split_lines(contents@) == out.deep_view() + spec_split_rec(
                contents@.subrange(i as int, n as int),
                cur@,
            ),
        decreases n - i,
    {
        let ghost suffix = contents@.subrange(i as int, n as int);
        proof {
            assert(suffix[0] == contents@[i as int]);
            assert(suffix.drop_first() =~= contents@.subrange(i + 1 as int, n as int));
        }
        let c = contents[i];
        if c == 10 {
            let ghost cur0 = cur@;
            let ghost dv0 = out.deep_view();
            if cur.len() > 0 && cur[cur.len() - 1] == 13 {
                cur.pop();
            }
            proof {
                assert(cur@ =~= spec_strip_cr(cur0));
            }
            out.push(cur);
            cur = Vec::new();
            proof {
                assert(out.deep_view() =~~= dv0.push(spec_strip_cr(cur0)));
                assert(dv0.push(spec_strip_cr(cur0)) =~~= dv0 + seq![spec_strip_cr(cur0)]);
            }
        } else {
            cur.push(c);
        }
        i = i + 1;
        proof {
            assert(spec_split_lines(contents@) =~~= out.deep_view() + spec_split_rec(
                contents@.subrange(i as int, n as int),
                cur@,
            ));
        }
    }
    if cur.len() > 0 {
        let ghost dv0 = out.deep_view();
        let ghost cur0 = cur@;
        out.push(cur);
        proof {
            assert(out.deep_view() =~~= dv0.push(cur0));
            assert(dv0.push(cur0) =~~= dv0 + seq![cur0]);
        }
    }
    proof {
        assert(contents@.subrange(n as int, n as int) =~= Seq::<u8>::empty());
        assert(out.deep_view() =~~= spec_split_lines(contents@));
    }
    out
}

/// Whether a line, up to surrounding whitespace, opens the timing section.
#[verifier::loop_isolation(false)]
pub fn is_timing_header(line: &Vec<u8>) -> (r: bool)
    ensures
        r == spec_is_timing_header(line@),
{
    let n = line.len();
    let mut a: usize = 0;
    proof {
        assert(line@.subrange(0, n as int) =~= line@);
    }
    while a < n && is_space(line[a])
        invariant
            a <= n,
            spec_trim_front(line@) == spec_trim_front(line@.subrange(a as int, n as int)),
        decreases n - a,
    {
        proof {
            assert(line@.subrange(a as int, n as int).drop_first() =~= line@.subrange(
                a + 1 as int,
                n as int,
            ));
        }
        a = a + 1;
    }
    let mut b: usize = n;
    proof {
        assert(spec_trim_front(line@) =~= line@.subrange(a as int, n as int));
    }
    while b > a && is_space(line[b - 1])
        invariant
            a <= b <= n,
            spec_trim_back(line@.subrange(a as int, n as int)) == spec_trim_back(
                line@.subrange(a as int, b as int),
            ),
        decreases b,
    {
        proof {
            assert(line@.subrange(a as int, b as int).drop_last() =~= line@.subrange(
                a as int,
                b - 1 as int,
            ));
        }
        b = b - 1;
    }
    let ghost trimmed = spec_trim_back(spec_trim_front(line@));
    proof {
        assert(trimmed =~= line@.subrange(a as int, b as int));
    }
    let header = "[TimingPoints]".as_bytes();
    let m = header.len();
    if b - a != m {
        proof {
            assert(trimmed.len() != "[TimingPoints]".spec_bytes().len());
        }
        return false;
    }
    let mut j: usize = 0;
    while j < m
        invariant
            j <= m,
            b - a == m,
            m == header@.len(),
            header@ == "[TimingPoints]".spec_bytes(),
            trimmed == line@.subrange(a as int, b as int),
            forall|k: int| 0 <= k < j ==> trimmed[k] == header@[k],
        decreases m - j,
    {
        if line[a + j] != header[j] {
            proof {
                assert(trimmed[j as int] != header@[j as int]);
            }
            return false;
        }
        j = j + 1;
    }
    proof {
        assert(trimmed =~= "[TimingPoints]".spec_bytes());
    }
    true
}

/// An ASCII whitespace byte.
fn is_space(b: u8) -> (r: bool)
    ensures
        r == spec_is_space(b),
{
    b == 32 || b == 9 || b == 10 || b == 12 || b == 13
}

/// Appends the replacement rows with their line endings.
#[verifier::loop_isolation(false)]
fn append_timing(out: &mut Vec<u8>, timing: &Vec<Vec<u8>>)
    ensures
        final(out)@ == old(out)@ + spec_join_timing(timing.deep_view()),
{
    let n = timing.len();
    let mut i: usize = 0;
    proof {
        assert(timing.deep_view().subrange(0, n as int) =~~= timing.deep_view());
    }
    while i < n
        invariant
            i <= n,
            old(out)@ + spec_join_timing(timing.deep_view()) == out@ + spec_join_timing(
                timing.deep_view().subrange(i as int, n as int),
            ),
        decreases n - i,
    {
        let ghost suffix = timing.deep_view().subrange(i as int, n as int);
        proof {
            assert(suffix[0] == timing@[i as int]@);
            assert(suffix.drop_first() =~= timing.deep_view().subrange(i + 1 as int, n as int));
        }
        append_bytes(out, &timing[i]);
        out.push(10);
        i = i + 1;
    }
    proof {
        assert(timing.deep_view().subrange(n as int, n as int) =~= Seq::<Seq<u8>>::empty());
        assert(out@ =~= old(out)@ + spec_join_timing(timing.deep_view()));
    }
}

/// Patches a beatmap's text: replaces the rows of its timing section with
/// the given ones and keeps every other line; see `spec_osu_patch`. The
/// export collaborator reads the file, formats the rows, and writes the
/// result back.
#[verifier::loop_isolation(false)]
pub fn osu_patch(contents: &Vec<u8>, timing_lines: &Vec<Vec<u8>>) -> (r: Vec<u8>)
    ensures
        r@ == spec_osu_patch(contents@, timing_lines.deep_view()),
{
    let lines = split_lines(contents);
    let n = lines.len();
    let mut out: Vec<u8> = Vec::new();
    let mut in_timing = false;
    let mut i: usize = 0;
    proof {
        assert(lines.deep_view().subrange(0, n as int) =~~= lines.deep_view());
    }
    while i < n
        invariant
            i <= n,
            spec_osu_patch(contents@, timing_lines.deep_view()) == out@ + spec_patch_rec(
                lines.deep_view().subrange(i as int, n as int),
                timing_lines.deep_view(),
                in_timing,
            ),
        decreases n - i,
    {
        let ghost suffix = lines.deep_view().subrange(i as int, n as int);
        proof {
            assert(suffix[0] == lines@[i as int]@);
            assert(suffix.drop_first() =~= lines.deep_view().subrange(i + 1 as int, n as int));
        }
        let line = &lines[i];
        if is_timing_header(line) {
            append_bytes(&mut out, line);
            out.push(10);
            append_timing(&mut out, timing_lines);
            out.push(10);
            in_timing = true;
        } else {
            let starts_section = line.len() > 0 && *&line[0] == 91;
            if in_timing && starts_section {
                in_timing = false;
            }
            if !in_timing {
                append_bytes(&mut out, line);
                out.push(10);
            }
        }
        i = i + 1;
        proof {
            assert(spec_osu_patch(contents@, timing_lines.deep_view()) =~= out@ + spec_patch_rec(
                lines.deep_view().subrange(i as int, n as int),
                timing_lines.deep_view(),
                in_timing,
            ));
        }
    }
    proof {
        assert(lines.deep_view().subrange(n as int, n as int) =~= Seq::<Seq<u8>>::empty());
        assert(out@ =~= spec_osu_patch(contents@, timing_lines.deep_view()));
    }
    out
}

} // verus!
