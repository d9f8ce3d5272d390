//! Converting files and appending to them: where output goes, what fits together, what is reported.

use crate::formatting::value;
use crate::number;
use crate::options::FormatVersion;
use crate::schema;
use crate::schema::{Schema, SchemaModel};
use crate::text;
use vstd::prelude::*;
use vstd::string::*;

verus! {

/// What a path leads to.
#[derive(Debug, Clone, Copy, PartialEq, Eq, Structural)]
pub enum PathKind {
    Missing,
    File,
    Directory,
    Other,
}

/// Where the output of a conversion goes.
#[derive(Debug, Clone, Copy, PartialEq, Eq, Structural)]
pub enum Destination {
    /// One file, to the output path itself.
    Output,
    /// One file, into the output directory under its own name.
    IntoDirectory,
    /// The files of a directory, into the output directory under their own names.
    AllIntoDirectory,
}

/// Where the output of a conversion goes, or why it cannot go anywhere. An output that is missing
/// is a directory where its name has no extension.
pub open spec fn destination_of(
    input: PathKind,
    output: PathKind,
    output_has_extension: bool,
) -> Result<Destination, Seq<char>> {
    match input {
        PathKind::File => if output == PathKind::Directory || (output == PathKind::Missing
            && !output_has_extension) {
            Ok(Destination::IntoDirectory)
        } else {
            Ok(Destination::Output)
        },
        PathKind::Directory => if output == PathKind::Directory || output == PathKind::Missing {
            Ok(Destination::AllIntoDirectory)
        } else {
            Err("a directory input requires a directory output"@)
        },
        _ => Err("conversion input must be a regular file or directory"@),
    }
}

/// Where the output of a conversion goes, or why it cannot go anywhere.
pub fn plan_destination(input: PathKind, output: PathKind, output_has_extension: bool) -> (result:
    Result<Destination, String>)
    ensures
        text::worded(result) == destination_of(input, output, output_has_extension),
{
    match input {
        PathKind::File => {
            if output == PathKind::Directory || (output == PathKind::Missing
                && !output_has_extension) {
                Ok(Destination::IntoDirectory)
            } else {
                Ok(Destination::Output)
            }
        },
        PathKind::Directory => {
            if output == PathKind::Directory || output == PathKind::Missing {
                Ok(Destination::AllIntoDirectory)
            } else {
                Err("a directory input requires a directory output".to_owned())
            }
        },
        PathKind::Missing | PathKind::Other => {
            Err("conversion input must be a regular file or directory".to_owned())
        },
    }
}

/// Refuses to convert a directory that holds no FWOB file.
pub fn check_inputs(count: usize) -> (result: Result<(), String>)
    ensures
        match result {
            Ok(_) => count > 0,
            Err(message) => count == 0 && message@
                == "input directory contains no immediate *.fwob files"@,
        },
{
    if count == 0 {
        Err("input directory contains no immediate *.fwob files".to_owned())
    } else {
        Ok(())
    }
}

/// Refuses to convert a file to itself. Both files are given by what tells them from all others,
/// and the input also by the path that is shown of it.
pub fn ensure_distinct_paths(input: &str, output: &str, shown: &str) -> (result: Result<(), String>)
    ensures
        match result {
            Ok(_) => input@ != output@,
            Err(message) => input@ == output@ && message@
                == "conversion input and output must be different: "@ + shown@,
        },
{
    if text::same(input, output) {
        let mut message: String = "conversion input and output must be different: ".to_owned();
        message.append(shown);
        Err(message)
    } else {
        Ok(())
    }
}

/// How many files are converted at once: as many as was asked for, or as the machine can do, but
/// not more than there are.
pub fn worker_count(asked: Option<usize>, available: usize, jobs: usize) -> (result: usize)
    ensures
        ({
            let wanted = match asked {
                Some(asked) => asked,
                None => available,
            };
            let most = if jobs == 0 {
                1
            } else {
                jobs
            };
            result == if wanted < most {
                wanted
            } else {
                most
            }
        }),
{
    let wanted: usize = match asked {
        Some(asked) => asked,
        None => available,
    };
    let most: usize = if jobs == 0 { 1 } else { jobs };
    if wanted < most {
        wanted
    } else {
        most
    }
}

/// What went wrong with jobs, in the order of the jobs.
pub open spec fn failed(outcomes: Seq<Option<String>>) -> Seq<Seq<char>>
    decreases outcomes.len(),
{
    if outcomes.len() == 0 {
        Seq::empty()
    } else {
        match outcomes.last() {
            Some(message) => failed(outcomes.drop_last()).push("  "@ + message@),
            None => failed(outcomes.drop_last()),
        }
    }
}

/// What is said of jobs that failed, each in a line of its own.
pub open spec fn failure_text(outcomes: Seq<Option<String>>) -> Seq<char> {
    number::decimal(failed(outcomes).len()) + " conversion job(s) failed:\n"@ + text::joined(
        failed(outcomes),
        "\n"@,
    )
}

/// What is said of jobs that failed, if any did: in the order of the jobs, whatever the order in
/// which they ended.
pub fn failure_report(outcomes: &[Option<String>]) -> (result: Option<String>)
    ensures
        match result {
            Some(report) => failed(outcomes@).len() > 0 && report@ == failure_text(outcomes@),
            None => failed(outcomes@).len() == 0,
        },
{
    let mut lines: Vec<String> = Vec::new();
    let mut i: usize = 0;
    assert(outcomes@.take(0) == Seq::<Option<String>>::empty());
    assert(text::views(lines@) == Seq::<Seq<char>>::empty());
    while i < outcomes.len()
        invariant
            i <= outcomes@.len(),
            text::views(lines@) == failed(outcomes@.take(i as int)),
        decreases outcomes@.len() - i,
    {
        let ghost before = text::views(lines@);
        assert(outcomes@.take(i as int + 1).drop_last() == outcomes@.take(i as int));
        if let Some(message) = &outcomes[i] {
            let mut line: String = "  ".to_owned();
            line.append(message.as_str());
            lines.push(line);
            assert(text::views(lines@) == before.push(line@));
        }
        i = i + 1;
    }
    assert(outcomes@.take(i as int) == outcomes@);
    assert(text::views(lines@).len() == lines@.len());
    if lines.len() == 0 {
        return None;
    }
    let mut report: String = number::decimal_string(lines.len() as u128);
    report.append(" conversion job(s) failed:\n");
    let details: String = text::join(lines.as_slice(), "\n");
    report.append(details.as_str());
    Some(report)
}

/// Whether two paths resolve to the same file.
pub open spec fn same_file(target: Option<Seq<char>>, input: Option<Seq<char>>) -> bool {
    target is Some && input == target
}

/// A path that something resolves to, as characters.
pub open spec fn resolved(path: Option<String>) -> Option<Seq<char>> {
    match path {
        Some(path) => Some(path@),
        None => None,
    }
}

/// Refuses to append a file to itself. `target` and `inputs` are what paths resolve to, where they
/// resolve to anything.
pub fn ensure_distinct_inputs(target: Option<String>, inputs: &[Option<String>]) -> (result: Result<
    (),
    String,
>)
    ensures
        result is Ok <==> forall|i: int|
            0 <= i < inputs@.len() ==> !same_file(
                resolved(target),
                resolved(#[trigger] inputs@[i]),
            ),
        result matches Err(message) ==> message@ == "target and input must be different files"@,
{
    let own: &String = match &target {
        Some(own) => own,
        None => {
            return Ok(());
        },
    };
    let mut i: usize = 0;
    while i < inputs.len()
        invariant
            i <= inputs@.len(),
            resolved(target) == Some(own@),
            forall|j: int|
                0 <= j < i ==> !same_file(resolved(target), resolved(#[trigger] inputs@[j])),
        decreases inputs@.len() - i,
    {
        if let Some(input) = &inputs[i] {
            if text::same(own.as_str(), input.as_str()) {
                assert(same_file(resolved(target), resolved(inputs@[i as int])));
                return Err("target and input must be different files".to_owned());
            }
        }
        i = i + 1;
    }
    Ok(())
}

/// How far a file has been read, chunk by chunk.
#[derive(Debug, Clone, Copy, PartialEq, Eq, Structural)]
pub struct FrameStream {
    pub total_frames: u64,
    pub frame_len: usize,
    pub read_frames: u64,
}

impl FrameStream {
    /// A file of which nothing has been read.
    pub fn start(total_frames: u64, frame_len: usize) -> (result: Self)
        ensures
            result == (FrameStream { total_frames, frame_len, read_frames: 0 }),
    {
        FrameStream { total_frames, frame_len, read_frames: 0 }
    }

    /// The frame to read from next, until all frames are read.
    pub open spec fn next(self) -> Option<u64> {
        if self.read_frames < self.total_frames {
            Some(self.read_frames)
        } else {
            None
        }
    }

    /// The frame to read from next, until all frames are read.
    pub fn next_frame(self) -> (result: Option<u64>)
        ensures
            result == self.next(),
    {
        if self.read_frames < self.total_frames {
            Some(self.read_frames)
        } else {
            None
        }
    }

    /// How far the file has been read once so many bytes more have come: by the frames in them.
    pub open spec fn after(self, bytes: int) -> FrameStream {
        FrameStream {
            read_frames: (self.read_frames + bytes / self.frame_len as int) as u64,
            ..self
        }
    }

    /// How far the file has been read once so many bytes more have come. Where none came, it is at
    /// its end.
    pub fn received(self, bytes: usize) -> (result: Option<Self>)
        requires
            self.frame_len > 0,
            self.read_frames + bytes / self.frame_len <= u64::MAX,
        ensures
            result == if bytes == 0 {
                None
            } else {
                Some(self.after(bytes as int))
            },
    {
        if bytes == 0 {
            None
        } else {
            let read_frames: u64 = self.read_frames + frames_in(bytes, self.frame_len);
            Some(
                FrameStream {
                    total_frames: self.total_frames,
                    frame_len: self.frame_len,
                    read_frames,
                },
            )
        }
    }
}

/// Chunks of whole frames follow each other without a gap and end with the file: each read goes on
/// where the one before it ended, and none goes beyond the last frame.
pub proof fn chunks_follow_each_other(stream: FrameStream, chunk_frames: u64)
    requires
        stream.frame_len > 0,
        stream.next() is Some,
        chunk_frames > 0,
    ensures
        ({
            let left = stream.total_frames - stream.read_frames;
            let frames = if chunk_frames < left {
                chunk_frames as int
            } else {
                left
            };
            let after = stream.after(frames * stream.frame_len);
            &&& after.read_frames == stream.read_frames + frames
            &&& stream.read_frames < after.read_frames <= stream.total_frames
            &&& after.next() is None <==> after.read_frames == stream.total_frames
        }),
{
    let left = stream.total_frames - stream.read_frames;
    let frames = if chunk_frames < left {
        chunk_frames as int
    } else {
        left
    };
    assert(frames * stream.frame_len / (stream.frame_len as int) == frames) by (nonlinear_arith)
        requires
            stream.frame_len > 0,
    ;
}

/// How many frames are converted between two reports.
pub const PROGRESS_STEP: u64 = 5_000_000;

/// When the next report on a conversion is due.
#[derive(Debug, Clone, Copy, PartialEq, Eq, Structural)]
pub struct Progress {
    pub total_frames: u64,
    pub next: u64,
}

impl Progress {
    /// Whether reports come at whole steps.
    pub open spec fn valid(self) -> bool {
        self.next > 0 && self.next % PROGRESS_STEP == 0
    }

    /// A conversion of so many frames that has not started.
    pub fn start(total_frames: u64) -> (result: Self)
        ensures
            result.valid(),
            result.total_frames == total_frames,
            result.next == PROGRESS_STEP,
    {
        Progress { total_frames, next: PROGRESS_STEP }
    }

    /// Whether a report is due once so many frames are converted. The next one is due a step
    /// further on than the last whole step that was reached.
    pub fn is_due(&mut self, converted: u64) -> (result: bool)
        requires
            old(self).valid(),
            converted <= u64::MAX - PROGRESS_STEP,
        ensures
            final(self).valid(),
            final(self).total_frames == old(self).total_frames,
            result == (converted >= old(self).next || converted == old(self).total_frames),
            final(self).next == if converted >= old(self).next {
                ((converted / PROGRESS_STEP + 1) * PROGRESS_STEP) as int
            } else {
                old(self).next as int
            },
    {
        if converted >= self.next || converted == self.total_frames {
            if converted >= self.next {
                self.next = (converted / PROGRESS_STEP + 1) * PROGRESS_STEP;
            }
            true
        } else {
            false
        }
    }
}

/// A report is due again only after a further step, until the end: reports are a step apart.
pub proof fn reports_are_a_step_apart(before: Progress, converted: u64, later: u64, after: Progress)
    requires
        before.valid(),
        converted >= before.next,
        after.total_frames == before.total_frames,
        after.next == (converted / PROGRESS_STEP + 1) * PROGRESS_STEP,
        later >= after.next,
    ensures
        later / PROGRESS_STEP > converted / PROGRESS_STEP,
        after.next > converted,
        after.next - converted <= PROGRESS_STEP,
{
}

/// What is reported of a conversion that goes on; the percentage and the seconds are given to one
/// place.
pub fn progress_text(
    label: &str,
    converted: u64,
    total_frames: u64,
    percent: &str,
    elapsed_seconds: &str,
) -> (result: String)
    ensures
        result@ == "converted "@ + label@ + ": "@ + number::grouped_integer(converted as int) + "/"@
            + number::grouped_integer(total_frames as int) + " frames ("@ + percent@ + "%) in "@
            + elapsed_seconds@ + "s"@,
{
    let mut result: String = "converted ".to_owned();
    result.append(label);
    result.append(": ");
    let done: String = number::comma_u64(converted);
    result.append(done.as_str());
    result.append("/");
    let total: String = number::comma_u64(total_frames);
    result.append(total.as_str());
    result.append(" frames (");
    result.append(percent);
    result.append("%) in ");
    result.append(elapsed_seconds);
    result.append("s");
    result
}

/// How many frames are in so many bytes.
pub fn frames_in(bytes: usize, frame_len: usize) -> (result: u64)
    requires
        frame_len > 0,
    ensures
        result == bytes / frame_len,
{
    (bytes / frame_len) as u64
}

/// Why an input cannot be appended to a target, if it cannot. Two v2 files must say the same about
/// what numbers stand for; a v1 file cannot say it, so next to one that does not count.
pub open spec fn append_refusal(
    target_format: FormatVersion,
    target_schema: SchemaModel,
    target_strings: Seq<Seq<char>>,
    input_format: FormatVersion,
    input_schema: SchemaModel,
    input_strings: Seq<Seq<char>>,
) -> Option<Seq<char>> {
    let exact = target_format == FormatVersion::V2 && input_format == FormatVersion::V2;
    if exact && input_schema != target_schema || !exact && !input_schema.compatible(target_schema) {
        Some("input schema does not match target schema"@)
    } else if input_strings != target_strings {
        Some("input string table does not match target string table"@)
    } else {
        None
    }
}

/// Refuses to append an input to a target that it does not fit.
pub fn check_appendable(
    target_format: FormatVersion,
    target_schema: &Schema,
    target_strings: &[String],
    input_format: FormatVersion,
    input_schema: &Schema,
    input_strings: &[String],
) -> (result: Result<(), String>)
    ensures
        ({
            let refusal = append_refusal(
                target_format,
                target_schema@,
                text::views(target_strings@),
                input_format,
                input_schema@,
                text::views(input_strings@),
            );
            match result {
                Ok(_) => refusal is None,
                Err(message) => refusal == Some(message@),
            }
        }),
{
    let exact: bool = target_format == FormatVersion::V2 && input_format == FormatVersion::V2;
    let fits: bool = if exact {
        input_schema.is_same(target_schema)
    } else {
        input_schema.is_compatible(target_schema)
    };
    if !fits {
        return Err("input schema does not match target schema".to_owned());
    }
    if !text::same_texts(input_strings, target_strings) {
        return Err("input string table does not match target string table".to_owned());
    }
    Ok(())
}

/// Frames are appended only to a file that reads them as their own file does: where an append is
/// accepted, each string index means the same text in both files, the fields lie alike, two v2 files
/// say the same about what numbers stand for, and so every frame has the same values in both files.
/// Where all of that holds, an append is accepted.
pub proof fn appended_frames_mean_the_same(
    target_format: FormatVersion,
    target_schema: SchemaModel,
    target_strings: Seq<Seq<char>>,
    input_format: FormatVersion,
    input_schema: SchemaModel,
    input_strings: Seq<Seq<char>>,
    frame: Seq<u8>,
)
    ensures
        ({
            let accepted = append_refusal(
                target_format,
                target_schema,
                target_strings,
                input_format,
                input_schema,
                input_strings,
            ) is None;
            let both_v2 = target_format == FormatVersion::V2 && input_format == FormatVersion::V2;
            &&& accepted ==> input_strings.len() == target_strings.len()
            &&& accepted ==> forall|i: int|
                0 <= i < input_strings.len() ==> #[trigger] input_strings[i] == target_strings[i]
            &&& accepted ==> input_schema.plain() == target_schema.plain()
            &&& accepted && both_v2 ==> input_schema == target_schema
            &&& accepted ==> value::frame_values(input_schema, input_strings, frame)
                == value::frame_values(target_schema, target_strings, frame)
            &&& input_strings == target_strings && input_schema == target_schema ==> accepted
            &&& input_strings == target_strings && input_schema.plain() == target_schema.plain()
                && !both_v2 ==> accepted
        }),
{
    schema::compatible_is_equality_of_layouts(input_schema, target_schema);
    if input_schema.compatible(target_schema) {
        value::compatible_schemas_decode_alike(
            input_schema,
            target_schema,
            target_strings,
            frame,
        );
    }
}

/// Where output goes: one file goes into a directory under its own name exactly where the output is
/// a directory, or is to become one because nothing is there and its name has no extension, and else
/// to the output itself; a directory goes into a directory, which may have to be made, and never to
/// a file; nothing but files and directories is converted.
pub proof fn output_goes_where_it_can(input: PathKind, output: PathKind, output_has_extension: bool)
    ensures
        ({
            let destination = destination_of(input, output, output_has_extension);
            let becomes_directory = output == PathKind::Directory || output == PathKind::Missing
                && !output_has_extension;
            &&& destination is Ok ==> input == PathKind::File || input == PathKind::Directory
            &&& input == PathKind::File ==> destination is Ok
            &&& destination == Ok::<Destination, Seq<char>>(Destination::IntoDirectory) <==> input == PathKind::File
                && becomes_directory
            &&& destination == Ok::<Destination, Seq<char>>(Destination::Output) <==> input == PathKind::File
                && !becomes_directory
            &&& destination == Ok::<Destination, Seq<char>>(Destination::AllIntoDirectory) <==> input
                == PathKind::Directory && (output == PathKind::Directory || output
                == PathKind::Missing)
        }),
{
}

/// What failed is told in the order of the jobs, and nothing else is: as many lines as jobs failed,
/// each with what went wrong.
pub proof fn every_failure_is_told(outcomes: Seq<Option<String>>, index: int)
    requires
        0 <= index < outcomes.len(),
    ensures
        failed(outcomes.take(index)).len() <= failed(outcomes).len(),
        outcomes[index] matches Some(message) ==> failed(outcomes.take(index)).len() < failed(
            outcomes,
        ).len() && failed(outcomes)[failed(outcomes.take(index)).len() as int] == "  "@ + message@,
        outcomes[index] is None ==> failed(outcomes.take(index + 1)) == failed(
            outcomes.take(index),
        ),
{
    let next = outcomes.take(index + 1);
    assert(next.drop_last() == outcomes.take(index));
    assert(next.last() == outcomes[index]);
    told_first_stay(outcomes, index);
    told_first_stay(outcomes, index + 1);
    if outcomes[index] is Some {
        let place = failed(outcomes.take(index)).len() as int;
        assert(failed(next).len() == place + 1);
        assert(failed(outcomes)[place] == failed(next)[place]);
    }
}

proof fn told_first_stay(outcomes: Seq<Option<String>>, count: int)
    requires
        0 <= count <= outcomes.len(),
    ensures
        failed(outcomes.take(count)).is_prefix_of(failed(outcomes)),
    decreases outcomes.len() - count,
{
    if count < outcomes.len() {
        told_first_stay(outcomes, count + 1);
        let next = outcomes.take(count + 1);
        assert(next.drop_last() == outcomes.take(count));
        assert(failed(outcomes.take(count)).is_prefix_of(failed(next)));
    } else {
        assert(outcomes.take(count) == outcomes);
    }
}

} // verus!
