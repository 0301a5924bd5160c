//! Flashing is split across two processes: the program writes a job file and
//! starts a copy of itself as an elevated helper; the helper does the work and
//! appends events to a progress file that the program reads along. The helper
//! looks the target up again instead of trusting the choice it was given.

use vstd::prelude::*;

use crate::bootable::{Device, DeviceView, Event, EventView, FlashJob, Mode};
use crate::paths::FilePath;
use crate::text;
use crate::{EngineError, EngineResult, ErrorView};

verus! {

/// The drive with the given identifier among the first listed, from `i` on.
pub open spec fn find_device(devices: Seq<DeviceView>, id: Seq<char>, i: int) -> Option<DeviceView>
    decreases devices.len() - i,
{
    if i < 0 || i >= devices.len() {
        None
    } else if devices[i].id == id {
        Some(devices[i])
    } else {
        find_device(devices, id, i + 1)
    }
}

/// The drive that a job may be carried out on, or why it is refused.
pub open spec fn target_of(devices: Seq<DeviceView>, id: Seq<char>, allow_virtual: bool) -> Result<
    DeviceView,
    ErrorView,
> {
    match find_device(devices, id, 0) {
        None => Err(ErrorView::Other(id + " is no longer connected"@)),
        Some(d) => if d.safe_target(allow_virtual) {
            Ok(d)
        } else {
            Err(
                ErrorView::Other(
                    "refusing to write to "@ + d.id
                        + " — it isn't a removable drive, or it's the disk this computer runs from"@,
                ),
            )
        },
    }
}

/// Finds the drive that a job names among those connected now, and refuses
/// one that is gone or not a safe target.
pub fn choose_target(
    devices: EngineResult<Vec<Device>>,
    device_id: &str,
    allow_virtual: bool,
) -> (r: EngineResult<Device>)
    ensures
        match devices {
            Err(e) => r is Err && r->Err_0 == e,
            Ok(list) => match target_of(
                crate::bootable::devices::device_views(list@),
                device_id@,
                allow_virtual,
            ) {
                Ok(d) => r is Ok && r->Ok_0@ == d && d.safe_target(allow_virtual),
                Err(e) => r is Err && r->Err_0@ == e,
            },
        },
{
    let list = match devices {
        Ok(list) => list,
        Err(e) => return Err(e),
    };
    let ghost all = crate::bootable::devices::device_views(list@);
    let mut i: usize = 0;
    while i < list.len()
        invariant
            i <= list@.len(),
            all == crate::bootable::devices::device_views(list@),
            find_device(all, device_id@, 0) == find_device(all, device_id@, i as int),
            devices == Ok::<Vec<Device>, EngineError>(list),
        decreases list@.len() - i,
    {
        proof {
            assert(all[i as int] == list@[i as int]@);
        }
        if text::same_text(list[i].id.as_str(), device_id) {
            if list[i].is_safe_target(allow_virtual) {
                return Ok(list[i].clone());
            }
            let mut m = "refusing to write to ".to_owned();
            m.append(list[i].id.as_str());
            m.append(
                " — it isn't a removable drive, or it's the disk this computer runs from",
            );
            return Err(EngineError::Other(m));
        }
        i = i + 1;
    }
    let mut m = device_id.to_owned();
    m.append(" is no longer connected");
    Err(EngineError::Other(m))
}

/// The helper never works on a drive that the system needs, whatever job it
/// is given.
pub proof fn law_helper_refuses_system_disks(
    devices: Seq<DeviceView>,
    id: Seq<char>,
    allow_virtual: bool,
)
    requires
        target_of(devices, id, allow_virtual) is Ok,
    ensures
        !target_of(devices, id, allow_virtual)->Ok_0.is_system,
        target_of(devices, id, allow_virtual)->Ok_0.size > 0,
{
}

/// The event and the exit code that a finished job leads to.
pub fn run_helper(result: EngineResult<()>) -> (r: (Event, i32))
    ensures
        match result {
            Ok(_) => r.0@ is Finished && r.1 == 0,
            Err(EngineError::Cancelled) => r.0@ is Cancelled && r.1 == 2,
            Err(e) => r.0@ == (EventView::Failed { message: e@.sentence() }) && r.1 == 1,
        },
        r.0@.terminal(),
{
    match result {
        Ok(_) => (Event::Finished, 0),
        Err(EngineError::Cancelled) => (Event::Cancelled, 2),
        Err(e) => (Event::Failed { message: e.message() }, 1),
    }
}

/// Reads the complete lines of a progress file as it grows.
#[derive(Debug)]
pub struct ProgressReader {
    pub path: FilePath,
    /// How many bytes of the file were read.
    pub offset: u64,
    /// What was read of a line that is not complete yet.
    pub partial: String,
}

/// The complete lines of a text, without white space around them: every piece
/// that ends with a line break.
pub open spec fn complete_lines(s: Seq<char>) -> Seq<Seq<char>> {
    text::pieces(s, '\n').drop_last().map_values(|l: Seq<char>| text::trimmed(l))
}

/// What follows the last line break.
pub open spec fn incomplete_line(s: Seq<char>) -> Seq<char> {
    text::pieces(s, '\n').last()
}

impl ProgressReader {
    pub fn new(path: FilePath) -> (r: ProgressReader)
        ensures
            r.path == path,
            r.offset == 0,
            r.partial@ == Seq::<char>::empty(),
    {
        ProgressReader { path, offset: 0, partial: String::new() }
    }

    /// Takes in what was appended to the file and gives the lines that are
    /// now complete.
    pub fn poll(&mut self, chunk: &str) -> (lines: Vec<String>)
        ensures
            text::views(lines@) == complete_lines(old(self).partial@ + chunk@),
            final(self).partial@ == incomplete_line(old(self).partial@ + chunk@),
            final(self).offset == old(self).offset.wrapping_add(chunk.len() as u64),
            final(self).path == old(self).path,
    {
        let mut all = self.partial.clone();
        all.append(chunk);
        let ghost s = self.partial@ + chunk@;
        let mut parts = text::split(all.as_str(), '\n');
        let ghost ps = text::pieces(s, '\n');
        proof {
            text::lemma_pieces_resume(s, Seq::empty(), '\n', 0);
            assert(text::views(parts@) == ps);
            assert(parts@.len() == ps.len());
        }
        let ghost before = parts@;
        let n: usize = chunk.len();
        self.offset = self.offset.wrapping_add(n as u64);
        match parts.pop() {
            Some(last) => {
                proof {
                    assert(text::views(before)[before.len() - 1] == last@);
                }
                self.partial = last;
            },
            None => {},
        }
        let mut lines: Vec<String> = Vec::new();
        let mut i: usize = 0;
        while i < parts.len()
            invariant
                i <= parts@.len(),
                lines@.len() == i,
                parts@ == before.drop_last(),
                text::views(before) == ps,
                before.len() > 0,
                forall|j: int| 0 <= j < i ==> (#[trigger] lines@[j])@ == text::trimmed(ps[j]),
            decreases parts@.len() - i,
        {
            proof {
                assert(text::views(before)[i as int] == parts@[i as int]@);
            }
            lines.push(text::trim(parts[i].as_str()));
            i = i + 1;
        }
        proof {
            assert(text::views(lines@) =~= complete_lines(s));
        }
        lines
    }
}

/// It does not matter in which portions the file is read: two portions give
/// the same lines, and leave the same rest, as both at once.
pub proof fn law_portions_do_not_matter(a: Seq<char>, b: Seq<char>)
    ensures
        complete_lines(a + b) == complete_lines(a) + complete_lines(incomplete_line(a) + b),
        incomplete_line(a + b) == incomplete_line(incomplete_line(a) + b),
{
    text::lemma_pieces_resume(a, b, '\n', 0);
    let rest = incomplete_line(a) + b;
    text::lemma_pieces_resume(rest, Seq::empty(), '\n', 0);
    let first = text::pieces(a, '\n').drop_last();
    let second = text::pieces(rest, '\n');
    assert((first + second).drop_last() =~= first + second.drop_last());
    assert(complete_lines(a + b) =~= complete_lines(a) + complete_lines(rest));
}

/// The job for writing `image` to a drive, with its files in `dir`.
pub fn new_job(
    image: FilePath,
    device_id: String,
    mode: Mode,
    verify: bool,
    dir: &FilePath,
) -> (job: FlashJob)
    ensures
        job.image == image,
        job.device_id == device_id,
        job.mode == mode,
        job.verify == verify,
        job.progress_file@ == dir@.child("progress.jsonl"@),
        job.cancel_file@ == dir@.child("cancel"@),
{
    FlashJob {
        image,
        device_id,
        mode,
        verify,
        progress_file: dir.child("progress.jsonl"),
        cancel_file: dir.child("cancel"),
    }
}

/// Follows a helper process: whether it reported an end, and whether the
/// request to stop was passed on.
#[derive(Debug)]
pub struct FlashWatch {
    pub saw_terminal: bool,
    pub cancel_written: bool,
}

impl FlashWatch {
    pub fn new() -> (r: FlashWatch)
        ensures
            !r.saw_terminal,
            !r.cancel_written,
    {
        FlashWatch { saw_terminal: false, cancel_written: false }
    }

    /// Takes note of an event that is passed on.
    pub fn saw(&mut self, event: &Event)
        ensures
            final(self).saw_terminal == (old(self).saw_terminal || event@.terminal()),
            final(self).cancel_written == old(self).cancel_written,
    {
        if event.is_terminal() {
            self.saw_terminal = true;
        }
    }

    /// Whether the cancel file is to be written now.
    pub fn wants_cancel_file(&self, cancelled: bool) -> (r: bool)
        ensures
            r == (cancelled && !self.cancel_written),
    {
        cancelled && !self.cancel_written
    }

    /// Takes note of whether the cancel file could be written.
    pub fn cancel_file_written(&mut self, ok: bool)
        ensures
            final(self).cancel_written == ok,
            final(self).saw_terminal == old(self).saw_terminal,
    {
        self.cancel_written = ok;
    }

    /// The last event, once the helper has stopped: a failure when it had
    /// not reported an end itself.
    pub fn conclude(&self, result: EngineResult<i32>) -> (r: Option<Event>)
        ensures
            self.saw_terminal ==> r is None,
            !self.saw_terminal ==> r is Some && r->0@ == (EventView::Failed {
                message: match result {
                    Ok(code) => "the flashing helper stopped unexpectedly (exit code "@
                        + text::dec_signed(code as int) + ")"@,
                    Err(e) => e@.sentence(),
                },
            }),
    {
        if self.saw_terminal {
            return None;
        }
        let message = match result {
            Ok(code) => {
                let mut m = "the flashing helper stopped unexpectedly (exit code ".to_owned();
                m.append(text::decimal_signed(code).as_str());
                m.append(")");
                m
            },
            Err(e) => e.message(),
        };
        Some(Event::Failed { message })
    }
}

/// A text in single quotes for `sh`.
pub open spec fn shell_quoted(s: Seq<char>) -> Seq<char> {
    seq!['\''] + text::replaced_from(s, seq!['\''], seq!['\'', '\\', '\'', '\''], 0) + seq!['\'']
}

/// Puts a text in single quotes for `sh`.
pub fn shell_quote(s: &str) -> (r: String)
    ensures
        r@ == shell_quoted(s@),
{
    let mut quote: Vec<char> = Vec::new();
    quote.push('\'');
    let mut escaped: Vec<char> = Vec::new();
    escaped.push('\'');
    escaped.push('\\');
    escaped.push('\'');
    escaped.push('\'');
    proof {
        assert(quote@ =~= seq!['\'']);
        assert(escaped@ =~= seq!['\'', '\\', '\'', '\'']);
    }
    let body = text::string_of(&text::replace_all(&text::chars_of(s), &quote, &escaped));
    let mut r = String::new();
    r.push('\'');
    r.append(body.as_str());
    r.push('\'');
    proof {
        assert(r@ =~= shell_quoted(s@));
    }
    r
}

/// A text for use between double quotes in AppleScript: backslashes first,
/// then quotes.
pub open spec fn applescript_escaped(s: Seq<char>) -> Seq<char> {
    text::replaced_from(
        text::replaced_from(s, seq!['\\'], seq!['\\', '\\'], 0),
        seq!['"'],
        seq!['\\', '"'],
        0,
    )
}

/// Escapes a text for use between double quotes in AppleScript.
pub fn applescript_escape(s: &str) -> (r: String)
    ensures
        r@ == applescript_escaped(s@),
{
    let mut slash: Vec<char> = Vec::new();
    slash.push('\\');
    let mut slashes: Vec<char> = Vec::new();
    slashes.push('\\');
    slashes.push('\\');
    let mut quote: Vec<char> = Vec::new();
    quote.push('"');
    let mut quoted: Vec<char> = Vec::new();
    quoted.push('\\');
    quoted.push('"');
    proof {
        assert(slash@ =~= seq!['\\']);
        assert(slashes@ =~= seq!['\\', '\\']);
        assert(quote@ =~= seq!['"']);
        assert(quoted@ =~= seq!['\\', '"']);
    }
    let once = text::replace_all(&text::chars_of(s), &slash, &slashes);
    text::string_of(&text::replace_all(&once, &quote, &quoted))
}

/// The words from position `i` on, each quoted for `sh` and with a space in
/// front.
pub open spec fn shell_words(args: Seq<Seq<char>>, i: int) -> Seq<char>
    decreases args.len() - i,
{
    if i < 0 || i >= args.len() {
        Seq::empty()
    } else {
        seq![' '] + shell_quoted(args[i]) + shell_words(args, i + 1)
    }
}

/// The AppleScript that runs a program with administrator rights.
pub fn elevation_script(exe: &str, args: &Vec<String>) -> (r: String)
    ensures
        r@ == "do shell script \""@ + applescript_escaped(
            shell_quoted(exe@) + shell_words(text::views(args@), 0),
        ) + "\" with administrator privileges"@,
{
    let ghost words = text::views(args@);
    let mut cmd = shell_quote(exe);
    let mut i: usize = 0;
    while i < args.len()
        invariant
            i <= args@.len(),
            words == text::views(args@),
            cmd@ + shell_words(words, i as int) == shell_quoted(exe@) + shell_words(words, 0),
        decreases args@.len() - i,
    {
        let ghost before = cmd@;
        let word = shell_quote(args[i].as_str());
        cmd.push(' ');
        cmd.append(word.as_str());
        proof {
            assert(words[i as int] == args@[i as int]@);
            assert(before + shell_words(words, i as int) =~= cmd@ + shell_words(words, i + 1));
        }
        i = i + 1;
    }
    proof {
        assert(cmd@ + Seq::<char>::empty() =~= cmd@);
    }
    let mut r = "do shell script \"".to_owned();
    r.append(applescript_escape(cmd.as_str()).as_str());
    r.append("\" with administrator privileges");
    r
}

/// What the exit code of `pkexec` means: 126 and 127 are a refusal.
pub fn pkexec_result(code: Option<i32>) -> (r: EngineResult<i32>)
    ensures
        match code {
            Some(c) => if c == 126 || c == 127 {
                r is Err && r->Err_0@ == ErrorView::Other(
                    "Administrator permission was not granted."@,
                )
            } else {
                r is Ok && r->Ok_0 == c
            },
            None => r is Ok && r->Ok_0 == -1,
        },
{
    match code {
        Some(c) => {
            if c == 126 || c == 127 {
                Err(EngineError::Other("Administrator permission was not granted.".to_owned()))
            } else {
                Ok(c)
            }
        },
        None => Ok(-1),
    }
}

/// What the end of `osascript` means: a failure that says so is a refusal.
pub fn osascript_result(success: bool, stderr: &Vec<u8>, code: Option<i32>) -> (r: EngineResult<
    i32,
>)
    ensures
        ({
            let refused = !success && text::contains(
                text::lossy_text(stderr@),
                "User canceled"@,
            );
            if refused {
                r is Err && r->Err_0@ == ErrorView::Other(
                    "Administrator permission was not granted."@,
                )
            } else {
                r is Ok && r->Ok_0 == (match code {
                    Some(c) => c,
                    None => -1i32,
                })
            }
        }),
{
    let said = text::lossy(stderr.as_slice());
    if !success && text::contains_text(said.as_str(), "User canceled") {
        return Err(EngineError::Other("Administrator permission was not granted.".to_owned()));
    }
    match code {
        Some(c) => Ok(c),
        None => Ok(-1),
    }
}

proof fn lemma_find_device(devices: Seq<DeviceView>, id: Seq<char>, at: int, i: int)
    requires
        0 <= at <= devices.len(),
    ensures
        find_device(devices, id, at) matches Some(d) ==> d.id == id && devices.contains(d),
        (at <= i < devices.len() && devices[i].id == id && (forall|k: int|
            at <= k < i ==> (#[trigger] devices[k]).id != id)) ==> find_device(devices, id, at)
            == Some(devices[i]),
    decreases devices.len() - at,
{
    if at < devices.len() && devices[at].id != id {
        lemma_find_device(devices, id, at + 1, i);
    }
}

/// A job is carried out on the drive it names, which is connected, is not one
/// the system needs, and is not empty; it is carried out on every such drive.
pub proof fn law_the_named_drive_is_chosen(
    list: Vec<Device>,
    device_id: &str,
    allow_virtual: bool,
    r: EngineResult<Device>,
    i: int,
)
    requires
        call_ensures(choose_target, (Ok(list), device_id, allow_virtual), r),
        0 <= i < list@.len(),
        list@[i].id@ == device_id@,
        forall|k: int| 0 <= k < i ==> (#[trigger] list@[k]).id@ != device_id@,
    ensures
        r is Ok <==> !list@[i].is_system && list@[i].size > 0 && (list@[i].is_virtual
            ==> allow_virtual),
        r is Ok ==> r->Ok_0@ == list@[i]@ && r->Ok_0.id@ == device_id@,
{
    let v = crate::bootable::devices::device_views(list@);
    assert(v.len() == list@.len());
    assert(v[i] == list@[i]@);
    assert forall|k: int| 0 <= k < i implies (#[trigger] v[k]).id != device_id@ by {
        assert(v[k] == list@[k]@);
        assert(list@[k].id@ != device_id@);
    }
    lemma_find_device(v, device_id@, 0, i);
}

/// A drive that is not connected is never replaced by another one.
pub proof fn law_missing_drives_are_not_replaced(
    list: Vec<Device>,
    device_id: &str,
    allow_virtual: bool,
    r: EngineResult<Device>,
)
    requires
        call_ensures(choose_target, (Ok(list), device_id, allow_virtual), r),
        forall|k: int| 0 <= k < list@.len() ==> (#[trigger] list@[k]).id@ != device_id@,
    ensures
        r is Err,
{
    let v = crate::bootable::devices::device_views(list@);
    lemma_find_device(v, device_id@, 0, 0);
    if find_device(v, device_id@, 0) is Some {
        let d = find_device(v, device_id@, 0)->0;
        let k = choose|k: int| 0 <= k < v.len() && v[k] == d;
        assert(v[k] == list@[k]@);
        assert(list@[k].id@ != device_id@);
    }
}

/// The code tells how a job ended: nothing but success gives zero, and a stop
/// is told from a failure.
pub proof fn law_codes_tell_the_end(result: EngineResult<()>, r: (Event, i32))
    requires
        call_ensures(run_helper, (result,), r),
    ensures
        r.1 == 0 <==> result is Ok,
        r.0 is Finished <==> result is Ok,
        result == Err::<(), EngineError>(EngineError::Cancelled) <==> r.0 is Cancelled,
        r.0 is Cancelled ==> r.1 == 2,
        r.0 is Failed ==> r.1 == 1,
        r.0 is Finished || r.0 is Cancelled || r.0 is Failed,
{
}

/// A line is given out when its end has come, and what follows it is kept for
/// later.
pub proof fn law_lines_come_when_complete(
    reader: &mut ProgressReader,
    chunk: &str,
    line: Seq<char>,
    rest: Seq<char>,
    lines: Vec<String>,
)
    requires
        !line.contains('\n'),
        !rest.contains('\n'),
        call_ensures(ProgressReader::poll, (reader, chunk), lines),
    ensures
        old(reader).partial@ + chunk@ == line ==> lines@.len() == 0 && final(reader).partial@
            == line,
        old(reader).partial@ + chunk@ == line.push('\n') + rest ==> {
            &&& lines@.len() == 1
            &&& lines@[0]@ == text::trimmed(line)
            &&& final(reader).partial@ == rest
        },
        final(reader).path == old(reader).path,
{
    let all = reader.partial@ + chunk@;
    text::lemma_one_piece(line, '\n');
    let v = text::views(lines@);
    assert(v.len() == lines@.len());
    if all == line {
        assert(v.len() == 0);
    }
    if all == line.push('\n') + rest {
        let front = line.push('\n');
        text::lemma_pieces_push(line, '\n');
        text::lemma_pieces_resume(front, rest, '\n', 0);
        let empty = Seq::<char>::empty();
        assert(text::pieces(front, '\n') == seq![line, empty]);
        assert(empty + rest =~= rest);
        text::lemma_one_piece(rest, '\n');
        assert(text::pieces(all, '\n') =~= seq![line, rest]);
        assert(text::pieces(all, '\n').drop_last() =~= seq![line]);
        assert(v.len() == 1);
        assert(v[0] == text::trimmed(line));
        assert(v[0] == lines@[0]@);
    }
}

/// What was asked for is what the helper is given, and its two files lie side
/// by side and apart from each other.
pub proof fn law_job_is_what_was_asked_for(
    image: FilePath,
    device_id: String,
    mode: Mode,
    verify: bool,
    dir: &FilePath,
    job: FlashJob,
)
    requires
        call_ensures(new_job, (image, device_id, mode, verify, dir), job),
    ensures
        job.image == image,
        job.device_id == device_id,
        job.mode == mode,
        job.verify == verify,
        job.progress_file@.parent() == Some(dir@),
        job.cancel_file@.parent() == Some(dir@),
        job.progress_file@ != job.cancel_file@,
{
    reveal_strlit("progress.jsonl");
    reveal_strlit("cancel");
    assert(job.progress_file@.parts.drop_last() =~= dir@.parts);
    assert(job.cancel_file@.parts.drop_last() =~= dir@.parts);
    assert(job.progress_file@.parts.last().len() == 14);
    assert(job.cancel_file@.parts.last().len() == 6);
}

/// An end is reported once: by the helper, or in its place where it reported
/// none.
pub proof fn law_an_end_is_reported_once(
    watch: &mut FlashWatch,
    event: &Event,
    u: (),
    later: &FlashWatch,
    result: EngineResult<i32>,
    last: Option<Event>,
)
    requires
        call_ensures(FlashWatch::saw, (watch, event), u),
        *later == *final(watch),
        call_ensures(FlashWatch::conclude, (later, result), last),
    ensures
        (*event is Finished || *event is Failed || *event is Cancelled) ==> last is None,
        old(watch).saw_terminal ==> last is None,
        !old(watch).saw_terminal && !(*event is Finished || *event is Failed || *event is Cancelled)
            ==> last is Some && last->0 is Failed,
{
}

/// The request to stop is passed on until that worked, and once only.
pub proof fn law_stop_is_passed_on_once(
    watch: &mut FlashWatch,
    ok: bool,
    u: (),
    later: &FlashWatch,
    again: bool,
)
    requires
        call_ensures(FlashWatch::cancel_file_written, (watch, ok), u),
        *later == *final(watch),
        call_ensures(FlashWatch::wants_cancel_file, (later, true), again),
    ensures
        again == !ok,
{
}

/// Quoting for `sh` goes character by character between two quotes: a quote
/// closes them, is escaped and opens them again, and every other character
/// stays as it is.
pub proof fn law_shell_quotes_are_escaped(
    whole: &str,
    front: &str,
    c: char,
    r: String,
    rest: String,
    nothing: &str,
    quotes: String,
)
    requires
        whole@ == front@.push(c),
        nothing@.len() == 0,
        call_ensures(shell_quote, (whole,), r),
        call_ensures(shell_quote, (front,), rest),
        call_ensures(shell_quote, (nothing,), quotes),
    ensures
        quotes@ == seq!['\'', '\''],
        rest@.len() > 0,
        r@ == rest@.drop_last() + (if c == '\'' {
            seq!['\'', '\\', '\'', '\'']
        } else {
            seq![c]
        }) + seq!['\''],
{
    let with = seq!['\'', '\\', '\'', '\''];
    assert(whole@ =~= front@ + seq![c]);
    text::lemma_replaced_parts(front@, seq![c], '\'', with);
    text::lemma_replaced_one(c, '\'', with);
    assert(quotes@ =~= seq!['\'', '\'']);
    assert(rest@.drop_last() =~= seq!['\''] + text::replaced_from(front@, seq!['\''], with, 0));
    assert(r@ =~= rest@.drop_last() + (if c == '\'' {
        with
    } else {
        seq![c]
    }) + seq!['\'']);
}

/// Escaping for AppleScript goes character by character: a backslash stands
/// before each backslash and each quote, and every other character stays as it
/// is.
pub proof fn law_applescript_is_escaped(
    whole: &str,
    front: &str,
    c: char,
    r: String,
    rest: String,
    nothing: &str,
    none: String,
)
    requires
        whole@ == front@.push(c),
        nothing@.len() == 0,
        call_ensures(applescript_escape, (whole,), r),
        call_ensures(applescript_escape, (front,), rest),
        call_ensures(applescript_escape, (nothing,), none),
    ensures
        none@.len() == 0,
        r@ == rest@ + (if c == '\\' || c == '"' {
            seq!['\\', c]
        } else {
            seq![c]
        }),
{
    let slashes = seq!['\\', '\\'];
    let quote = seq!['\\', '"'];
    assert(whole@ =~= front@ + seq![c]);
    let a = text::replaced_from(front@, seq!['\\'], slashes, 0);
    text::lemma_replaced_parts(front@, seq![c], '\\', slashes);
    text::lemma_replaced_one(c, '\\', slashes);
    if c == '\\' {
        text::lemma_replaced_parts(a, slashes, '"', quote);
        assert(slashes =~= seq!['\\'] + seq!['\\']);
        text::lemma_replaced_parts(seq!['\\'], seq!['\\'], '"', quote);
        text::lemma_replaced_one('\\', '"', quote);
    } else {
        text::lemma_replaced_parts(a, seq![c], '"', quote);
        text::lemma_replaced_one(c, '"', quote);
    }
}

/// Every word of a command is in the script, in order and quoted.
pub proof fn law_words_are_quoted_in_order(
    exe: &str,
    args: &Vec<String>,
    arg: &str,
    quoted_exe: String,
    quoted_arg: String,
    line: &str,
    escaped: String,
    r: String,
)
    requires
        args@.len() == 1,
        arg@ == args@[0]@,
        call_ensures(elevation_script, (exe, args), r),
        call_ensures(shell_quote, (exe,), quoted_exe),
        call_ensures(shell_quote, (arg,), quoted_arg),
        line@ == quoted_exe@ + seq![' '] + quoted_arg@,
        call_ensures(applescript_escape, (line,), escaped),
    ensures
        r@ == "do shell script \""@ + escaped@ + "\" with administrator privileges"@,
{
    let v = text::views(args@);
    assert(v.len() == 1 && v[0] == arg@);
    reveal_with_fuel(shell_words, 3);
    assert(quoted_exe@ + shell_words(v, 0) =~= line@);
}

/// A refusal is an error, and every other code is passed on.
pub proof fn law_codes_are_passed_on(code: i32, r: EngineResult<i32>)
    requires
        call_ensures(pkexec_result, (Some(code),), r),
    ensures
        r is Err <==> code == 126 || code == 127,
        r is Ok ==> r->Ok_0 == code,
{
}

/// A program that ended well was not refused, whatever it printed, and its
/// code is passed on.
pub proof fn law_success_is_no_refusal(
    stderr: &Vec<u8>,
    code: i32,
    good: EngineResult<i32>,
    bad: EngineResult<i32>,
)
    requires
        call_ensures(osascript_result, (true, stderr, Some(code)), good),
        call_ensures(osascript_result, (false, stderr, Some(code)), bad),
    ensures
        good == Ok::<i32, EngineError>(code),
        bad is Ok ==> bad->Ok_0 == code,
        bad is Err <==> text::contains(text::lossy_text(stderr@), "User canceled"@),
{
}

} // verus!
