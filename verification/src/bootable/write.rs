//! Writing an image onto a device in large blocks of whole sectors, and
//! comparing what the device holds afterwards.

use vstd::prelude::*;

use crate::bootable::tools;
use crate::bootable::tools::{CommandView, ToolCommand};
use crate::bootable::{Device, Event, EventView, Os};
use crate::text;
use crate::{CancelToken, EngineError, EngineResult, ErrorView};

verus! {

/// The most bytes moved in one go.
pub const CHUNK: usize = 4_194_304;

/// Devices take whole sectors of 512 or 4096 bytes; this suits both.
pub const SECTOR: usize = 4096;

/// The smallest multiple of a sector that is not below `n`.
pub open spec fn rounded_up(n: nat) -> nat {
    (n + 4095) / 4096 * 4096
}

/// The smallest multiple of a sector that is not below `n`.
pub fn round_up(n: u64) -> (r: u128)
    ensures
        r == rounded_up(n as nat),
{
    (n as u128 + 4095) / 4096 * 4096
}

/// `n` zero bytes.
pub open spec fn zeros(n: nat) -> Seq<u8> {
    Seq::new(n, |i: int| 0u8)
}

/// The bytes with zeros after them up to a whole sector.
pub open spec fn padded(b: Seq<u8>) -> Seq<u8> {
    b + zeros((rounded_up(b.len()) - b.len()) as nat)
}

/// How many bytes come next when `done` of `total` are handled.
pub open spec fn next_want(total: u64, done: u64) -> int {
    if total - done < CHUNK {
        total - done
    } else {
        CHUNK as int
    }
}

fn want_of(total: u64, done: u64) -> (n: usize)
    requires
        done <= total,
    ensures
        n == next_want(total, done),
{
    let left: u64 = total - done;
    if left < CHUNK as u64 {
        left as usize
    } else {
        CHUNK
    }
}

/// The state of writing the first `total` bytes of an image.
pub struct WriteRun {
    total: u64,
    done: u64,
    image: Ghost<Seq<u8>>,
    blocks: Ghost<Seq<u8>>,
}

impl WriteRun {
    /// What was read so far is what was written, with zeros added only after
    /// the very end.
    pub closed spec fn wf(self) -> bool {
        &&& self.done <= self.total
        &&& self.image@.len() == self.done
        &&& self.done < self.total ==> self.done % (CHUNK as u64) == 0 && self.blocks@ == self.image@
        &&& self.done == self.total ==> self.blocks@ == padded(self.image@)
    }

    pub closed spec fn total(self) -> u64 {
        self.total
    }

    pub closed spec fn done(self) -> u64 {
        self.done
    }

    /// The bytes of the image taken in so far.
    pub closed spec fn image(self) -> Seq<u8> {
        self.image@
    }

    /// The bytes handed out so far, to be written to the device.
    pub closed spec fn blocks(self) -> Seq<u8> {
        self.blocks@
    }

    pub fn new(total: u64) -> (r: WriteRun)
        ensures
            r.wf(),
            r.total() == total,
            r.done() == 0,
            r.image() == Seq::<u8>::empty(),
            r.blocks() == Seq::<u8>::empty(),
    {
        let r = WriteRun {
            total,
            done: 0,
            image: Ghost(Seq::empty()),
            blocks: Ghost(Seq::empty()),
        };
        proof {
            assert(padded(Seq::<u8>::empty()) =~= Seq::<u8>::empty());
        }
        r
    }

    /// How many bytes of the image are written.
    pub fn progress(&self) -> (done: u64)
        ensures
            done == self.done(),
    {
        self.done
    }

    /// How many bytes to read from the image next; none when all is written.
    pub fn want(&self, cancel: &CancelToken) -> (r: EngineResult<usize>)
        requires
            self.wf(),
        ensures
            self.done() < self.total() && cancel@ ==> r == Err::<usize, EngineError>(
                EngineError::Cancelled,
            ),
            self.done() == self.total() || !cancel@ ==> r is Ok && r->Ok_0 == next_want(
                self.total(),
                self.done(),
            ),
    {
        if self.done < self.total && cancel.is_cancelled() {
            return Err(EngineError::Cancelled);
        }
        Ok(want_of(self.total, self.done))
    }
}

/// Takes in the bytes read from the image and gives the block to write: the
/// same bytes, with zeros up to a whole sector. Fewer bytes than wanted mean
/// that the image ended too early.
pub fn write_stream(run: &mut WriteRun, chunk: Vec<u8>) -> (r: EngineResult<Vec<u8>>)
    requires
        old(run).wf(),
        chunk@.len() <= next_want(old(run).total(), old(run).done()),
    ensures
        final(run).wf(),
        final(run).total() == old(run).total(),
        chunk@.len() < next_want(old(run).total(), old(run).done()) ==> {
            &&& r is Err
            &&& r->Err_0@ == ErrorView::Other("image ended earlier than expected"@)
            &&& *final(run) == *old(run)
        },
        chunk@.len() == next_want(old(run).total(), old(run).done()) ==> {
            &&& r is Ok
            &&& r->Ok_0@ == padded(chunk@)
            &&& final(run).done() == old(run).done() + chunk@.len()
            &&& final(run).image() == old(run).image() + chunk@
            &&& final(run).blocks() == old(run).blocks() + padded(chunk@)
        },
{
    let want: usize = want_of(run.total, run.done);
    if chunk.len() < want {
        return Err(EngineError::Other("image ended earlier than expected".to_owned()));
    }
    let ghost start = *run;
    let ghost bytes = chunk@;
    let block = pad(chunk);
    run.done = run.done + want as u64;
    proof {
        run.image@ = start.image@ + bytes;
        run.blocks@ = start.blocks@ + block@;
        if start.done < start.total {
            lemma_pad_after(start.image@, bytes);
            if run.done < run.total {
                lemma_whole_chunk(bytes);
            }
        } else {
            assert(bytes =~= Seq::<u8>::empty());
            assert(padded(bytes) =~= Seq::<u8>::empty());
            assert(run.image@ =~= start.image@);
            assert(run.blocks@ =~= start.blocks@);
        }
    }
    Ok(block)
}

/// Adds zeros up to a whole sector.
fn pad(chunk: Vec<u8>) -> (block: Vec<u8>)
    requires
        chunk@.len() <= CHUNK,
    ensures
        block@ == padded(chunk@),
{
    let ghost bytes = chunk@;
    let want: usize = chunk.len();
    let mut block = chunk;
    let full: usize = (want + 4095) / 4096 * 4096;
    proof {
        assert(full == rounded_up(want as nat));
        assert(block@ =~= bytes + zeros(0));
    }
    while block.len() < full
        invariant
            bytes.len() == want <= block@.len() <= full,
            full == rounded_up(want as nat),
            block@ == bytes + zeros((block@.len() - want) as nat),
        decreases full - block@.len(),
    {
        let ghost n = (block@.len() - want) as nat;
        block.push(0);
        proof {
            assert(block@ =~= bytes + zeros(n + 1));
        }
    }
    block
}

proof fn lemma_pad_after(front: Seq<u8>, bytes: Seq<u8>)
    requires
        front.len() % 4_194_304 == 0,
    ensures
        front + padded(bytes) == padded(front + bytes),
{
    lemma_rounded_after(front.len(), bytes.len());
    assert((front + bytes).len() == front.len() + bytes.len());
    assert(front + padded(bytes) =~= padded(front + bytes));
}

proof fn lemma_rounded_after(n: nat, m: nat)
    requires
        n % 4_194_304 == 0,
    ensures
        rounded_up(n + m) == n + rounded_up(m),
{
    let q = n / 4_194_304 * 1024;
    assert(n == 4096 * q);
    let x = (m + 4095) as int;
    assert((4096 * q + x) / 4096 == q + x / 4096);
}

proof fn lemma_whole_chunk(bytes: Seq<u8>)
    requires
        bytes.len() == 4_194_304,
    ensures
        padded(bytes) == bytes,
{
    assert(padded(bytes) =~= bytes);
}

/// A complete write has put the whole image on the device, followed by zeros
/// up to the end of the last sector.
pub proof fn law_complete_write(run: WriteRun)
    requires
        run.wf(),
        run.done() == run.total(),
    ensures
        run.image().len() == run.total(),
        run.blocks() == padded(run.image()),
{
}

/// The error for a block that the device did not take, when `done` bytes were
/// written before it.
pub fn write_error(done: u64, message: &str) -> (e: EngineError)
    ensures
        e@ == ErrorView::Other(
            "write to device failed at "@ + text::dec(done as nat) + " bytes: "@ + message@,
        ),
{
    let mut m = "write to device failed at ".to_owned();
    m.append(text::decimal(done).as_str());
    m.append(" bytes: ");
    m.append(message);
    EngineError::Other(m)
}

/// The error for an image or a device that cannot be read.
pub fn read_error(message: &str) -> (e: EngineError)
    ensures
        e@ == ErrorView::Other("read failed: "@ + message@),
{
    let mut m = "read failed: ".to_owned();
    m.append(message);
    EngineError::Other(m)
}

/// The state of comparing the first `total` bytes of an image with a device.
pub struct VerifyRun {
    total: u64,
    done: u64,
    image: Ghost<Seq<u8>>,
    device: Ghost<Seq<u8>>,
}

/// The first position at which two byte strings differ; their length when
/// they do not.
pub open spec fn first_difference(a: Seq<u8>, b: Seq<u8>, from: int) -> int
    decreases a.len() - from,
{
    if from >= a.len() || a[from] != b[from] {
        from
    } else {
        first_difference(a, b, from + 1)
    }
}

impl VerifyRun {
    /// The device held what the image holds, as far as both were read.
    pub closed spec fn wf(self) -> bool {
        &&& self.done <= self.total
        &&& self.image@.len() == self.done
        &&& self.done < self.total ==> self.done % (CHUNK as u64) == 0 && self.device@ == self.image@
        &&& self.done == self.total ==> {
            &&& self.device@.len() == rounded_up(self.total as nat)
            &&& self.device@.take(self.total as int) == self.image@
        }
    }

    pub closed spec fn total(self) -> u64 {
        self.total
    }

    pub closed spec fn done(self) -> u64 {
        self.done
    }

    /// The bytes of the image compared so far.
    pub closed spec fn image(self) -> Seq<u8> {
        self.image@
    }

    /// The bytes of the device read so far.
    pub closed spec fn device(self) -> Seq<u8> {
        self.device@
    }

    pub fn new(total: u64) -> (r: VerifyRun)
        ensures
            r.wf(),
            r.total() == total,
            r.done() == 0,
            r.image() == Seq::<u8>::empty(),
            r.device() == Seq::<u8>::empty(),
    {
        let r = VerifyRun {
            total,
            done: 0,
            image: Ghost(Seq::empty()),
            device: Ghost(Seq::empty()),
        };
        proof {
            assert(Seq::<u8>::empty().take(0) =~= Seq::<u8>::empty());
        }
        r
    }

    pub fn progress(&self) -> (done: u64)
        ensures
            done == self.done(),
    {
        self.done
    }

    /// How many bytes to read next from the image and how many from the
    /// device; none when all is compared.
    pub fn want(&self, cancel: &CancelToken) -> (r: EngineResult<(usize, usize)>)
        requires
            self.wf(),
        ensures
            self.done() < self.total() && cancel@ ==> r == Err::<(usize, usize), EngineError>(
                EngineError::Cancelled,
            ),
            self.done() == self.total() || !cancel@ ==> {
                let want = next_want(self.total(), self.done());
                &&& r matches Ok((a, b))
                &&& a == want
                &&& b == rounded_up(want as nat)
            },
    {
        if self.done < self.total && cancel.is_cancelled() {
            return Err(EngineError::Cancelled);
        }
        let want: usize = want_of(self.total, self.done);
        Ok((want, (want + 4095) / 4096 * 4096))
    }
}

/// The error for a device that differs from the image at a byte.
pub open spec fn mismatch(at: nat) -> ErrorView {
    ErrorView::Other(
        "verification failed: byte "@ + text::dec(at) + " on the drive doesn't match the image"@,
    )
}

/// Compares what was read from the image with what was read from the device
/// and fails on the first difference. Fewer bytes than wanted are an error.
pub fn verify_stream(run: &mut VerifyRun, image: &[u8], device: &[u8]) -> (r: EngineResult<()>)
    requires
        old(run).wf(),
        image@.len() <= next_want(old(run).total(), old(run).done()),
        device@.len() <= rounded_up(next_want(old(run).total(), old(run).done()) as nat),
    ensures
        final(run).wf(),
        final(run).total() == old(run).total(),
        r is Err ==> *final(run) == *old(run),
        ({
            let want = next_want(old(run).total(), old(run).done());
            if image@.len() < want {
                r is Err && r->Err_0@ == ErrorView::Other("image ended earlier than expected"@)
            } else if device@.len() < rounded_up(want as nat) {
                r is Err && r->Err_0@ == ErrorView::Other(
                    "device returned too little data at "@ + text::dec(old(run).done() as nat)
                        + " bytes"@,
                )
            } else if device@.take(want) != image@ {
                r is Err && r->Err_0@ == mismatch(
                    (old(run).done() + first_difference(image@, device@, 0)) as nat,
                )
            } else {
                &&& r is Ok
                &&& final(run).done() == old(run).done() + want
                &&& final(run).image() == old(run).image() + image@
                &&& final(run).device() == old(run).device() + device@
            }
        }),
{
    let want: usize = want_of(run.total, run.done);
    if image.len() < want {
        return Err(EngineError::Other("image ended earlier than expected".to_owned()));
    }
    let full: usize = (want + 4095) / 4096 * 4096;
    if device.len() < full {
        let mut m = "device returned too little data at ".to_owned();
        m.append(text::decimal(run.done).as_str());
        m.append(" bytes");
        return Err(EngineError::Other(m));
    }
    let mut i: usize = 0;
    while i < want
        invariant
            i <= want,
            want == image@.len(),
            want <= device@.len(),
            run.wf(),
            run.done + want <= run.total,
            *run == *old(run),
            forall|j: int| 0 <= j < i ==> image@[j] == device@[j],
            first_difference(image@, device@, 0) == first_difference(image@, device@, i as int),
            want == next_want(run.total, run.done),
            device@.len() >= rounded_up(want as nat),
        decreases want - i,
    {
        if image[i] != device[i] {
            let mut m = "verification failed: byte ".to_owned();
            m.append(text::decimal(run.done + i as u64).as_str());
            m.append(" on the drive doesn't match the image");
            proof {
                assert(device@.take(want as int)[i as int] != image@[i as int]);
            }
            return Err(EngineError::Other(m));
        }
        i = i + 1;
    }
    let ghost start = *run;
    run.done = run.done + want as u64;
    proof {
        assert(device@.take(want as int) =~= image@);
        run.image@ = start.image@ + image@;
        run.device@ = start.device@ + device@;
        if start.done < start.total {
            assert(start.device@ == start.image@);
            if run.done < run.total {
                assert(want == CHUNK);
                assert(device@ =~= image@);
                assert(run.done % (CHUNK as u64) == 0);
            } else {
                lemma_rounded_after(start.done as nat, want as nat);
                assert(run.device@.take(run.total as int) =~= run.image@);
                assert(run.device@.len() == rounded_up(run.total as nat));
            }
        } else {
            assert(run.image@ =~= start.image@);
            assert(run.device@ =~= start.device@);
        }
    }
    Ok(())
}

/// A complete comparison has seen the whole image on the device.
pub proof fn law_complete_verify(run: VerifyRun)
    requires
        run.wf(),
        run.done() == run.total(),
    ensures
        run.device().take(run.total() as int) == run.image(),
{
}

/// A device that holds the blocks of a complete write passes the comparison:
/// at every step it has as many bytes as are wanted, and the first of them are
/// those of the image.
pub proof fn law_written_image_verifies(image: Seq<u8>, total: u64, done: u64)
    requires
        image.len() == total,
        done <= total,
        done % (CHUNK as u64) == 0,
    ensures
        ({
            let want = next_want(total, done);
            let read = rounded_up(want as nat);
            &&& done + read <= padded(image).len()
            &&& padded(image).subrange(done as int, done + read).take(want) == image.subrange(
                done as int,
                done + want,
            )
        }),
{
    let want = next_want(total, done);
    let read = rounded_up(want as nat);
    lemma_rounded_after(done as nat, want as nat);
    lemma_rounded_after(done as nat, (total - done) as nat);
    assert(padded(image).subrange(done as int, done + read).take(want) =~= image.subrange(
        done as int,
        done + want,
    ));
}

/// Lets progress through at most every 150 milliseconds.
#[derive(Debug)]
pub struct Throttle {
    /// When something was last let through, in milliseconds.
    pub last: Option<u64>,
}

impl Throttle {
    pub fn new() -> (r: Throttle)
        ensures
            r.last is None,
    {
        Throttle { last: None }
    }

    /// Whether something may be let through at `now`.
    pub fn ready(&mut self, now: u64) -> (r: bool)
        ensures
            r == (old(self).last is None || now - old(self).last->0 >= 150),
            final(self).last == (if r {
                Some(now)
            } else {
                old(self).last
            }),
    {
        let due = match self.last {
            None => true,
            Some(t) => now >= t && now - t >= 150,
        };
        if due {
            self.last = Some(now);
        }
        due
    }
}

/// The progress event after `done` of `total` bytes: let through by the
/// throttle, and always at the end.
pub fn progress_event(throttle: &mut Throttle, now: u64, done: u64, total: u64) -> (event: Option<
    Event,
>)
    ensures
        ({
            let due = old(throttle).last is None || now - old(throttle).last->0 >= 150;
            &&& event == (if due || done == total {
                Some(Event::Progress { done, total })
            } else {
                None
            })
            &&& final(throttle).last == (if due {
                Some(now)
            } else {
                old(throttle).last
            })
        }),
{
    let due = throttle.ready(now);
    if due || done == total {
        Some(Event::Progress { done, total })
    } else {
        None
    }
}

/// Refuses an image that does not fit on the drive in whole sectors.
pub fn check_fits(total: u64, size: u64) -> (r: EngineResult<()>)
    ensures
        r is Ok == (rounded_up(total as nat) <= size),
        r is Err ==> r->Err_0@ == ErrorView::Other(
            "the image ("@ + text::dec(total as nat) + ") is larger than the drive ("@ + text::dec(
                size as nat,
            ) + ")"@,
        ),
{
    if round_up(total) > size as u128 {
        let mut m = "the image (".to_owned();
        m.append(text::decimal(total).as_str());
        m.append(") is larger than the drive (");
        m.append(text::decimal(size).as_str());
        m.append(")");
        return Err(EngineError::Other(m));
    }
    Ok(())
}

/// What writing an image consists of.
#[derive(Debug, Clone, Copy, PartialEq, Eq, Structural)]
pub enum FlashAction {
    /// Make the system let go of the drive.
    Prepare,
    Write,
    Flush,
    Verify,
    /// Eject the drive where the system does that.
    Finish,
}

/// The phase announced before an action; the last one comes silently.
pub open spec fn phase_name(action: FlashAction) -> Option<Seq<char>> {
    match action {
        FlashAction::Prepare => Some("Unmounting drive"@),
        FlashAction::Write => Some("Writing image"@),
        FlashAction::Flush => Some("Flushing to the drive"@),
        FlashAction::Verify => Some("Verifying"@),
        FlashAction::Finish => None,
    }
}

/// The event that announces an action.
pub fn phase_event(action: FlashAction) -> (r: Option<Event>)
    ensures
        match phase_name(action) {
            Some(name) => r is Some && r->0@ == (EventView::Phase { name }),
            None => r is None,
        },
{
    match action {
        FlashAction::Prepare => Some(Event::Phase { name: "Unmounting drive".to_owned() }),
        FlashAction::Write => Some(Event::Phase { name: "Writing image".to_owned() }),
        FlashAction::Flush => Some(Event::Phase { name: "Flushing to the drive".to_owned() }),
        FlashAction::Verify => Some(Event::Phase { name: "Verifying".to_owned() }),
        FlashAction::Finish => None,
    }
}

/// The actions of writing an image of `total` bytes to a drive, in order. An
/// image that does not fit is refused before anything is done.
pub fn flash_raw(total: u64, device: &Device, verify: bool) -> (r: EngineResult<Vec<FlashAction>>)
    ensures
        rounded_up(total as nat) > device.size ==> r is Err && r->Err_0@ == ErrorView::Other(
            "the image ("@ + text::dec(total as nat) + ") is larger than the drive ("@ + text::dec(
                device.size as nat,
            ) + ")"@,
        ),
        rounded_up(total as nat) <= device.size ==> r is Ok && r->Ok_0@ == (if verify {
            seq![
                FlashAction::Prepare,
                FlashAction::Write,
                FlashAction::Flush,
                FlashAction::Verify,
                FlashAction::Finish,
            ]
        } else {
            seq![
                FlashAction::Prepare,
                FlashAction::Write,
                FlashAction::Flush,
                FlashAction::Finish,
            ]
        }),
{
    match check_fits(total, device.size) {
        Ok(_) => {},
        Err(e) => return Err(e),
    }
    let mut actions: Vec<FlashAction> = Vec::new();
    actions.push(FlashAction::Prepare);
    actions.push(FlashAction::Write);
    actions.push(FlashAction::Flush);
    if verify {
        actions.push(FlashAction::Verify);
    }
    actions.push(FlashAction::Finish);
    Ok(actions)
}

/// How the system is made to let go of a drive.
#[derive(Debug, PartialEq, Eq)]
pub enum PreparePlan {
    Commands(Vec<ToolCommand>),
    /// A script for `diskpart`.
    Diskpart(String),
}

/// The commands that unmount the first `n` mount points.
pub open spec fn unmount_commands(mounted: Seq<Seq<char>>, n: int) -> Seq<CommandView>
    decreases n,
{
    if n <= 0 {
        Seq::empty()
    } else {
        unmount_commands(mounted, n - 1).push(
            CommandView {
                program: "umount"@,
                args: seq![mounted[n - 1]],
                what: "unmounting "@ + mounted[n - 1],
            },
        )
    }
}

/// The commands that unmount everything on a drive.
pub fn unmount_all(mounted: &Vec<String>) -> (r: Vec<ToolCommand>)
    ensures
        tools::command_views(r@) == unmount_commands(
            text::views(mounted@),
            mounted@.len() as int,
        ),
{
    broadcast use tools::command_views_push;

    let ghost all = text::views(mounted@);
    let mut r: Vec<ToolCommand> = Vec::new();
    proof {
        assert(tools::command_views(r@) =~= Seq::<CommandView>::empty());
    }
    let mut i: usize = 0;
    while i < mounted.len()
        invariant
            i <= mounted@.len(),
            all == text::views(mounted@),
            tools::command_views(r@) == unmount_commands(all, i as int),
        decreases mounted@.len() - i,
    {
        let m = mounted[i].as_str();
        let mut what = "unmounting ".to_owned();
        what.append(m);
        let args: [&str; 1] = [m];
        let command = tools::tool("umount", &args, what.as_str());
        proof {
            assert(text::literals(args@) =~= seq![all[i as int]]);
        }
        r.push(command);
        i = i + 1;
    }
    r
}

/// The text after every leading `Disk `.
pub open spec fn after_disk(s: Seq<char>) -> Seq<char>
    decreases s.len(),
{
    if text::starts_with(s, "Disk "@) && "Disk "@.len() > 0 {
        after_disk(s.skip("Disk "@.len() as int))
    } else {
        s
    }
}

/// The number of a disk that is identified as `Disk` and a number.
pub fn windows_disk_number(id: &str) -> (r: EngineResult<u32>)
    ensures
        match text::unsigned(after_disk(id@), u32::MAX as nat) {
            Some(n) => r is Ok && r->Ok_0 == n,
            None => r is Err && r->Err_0@ == ErrorView::Other("unexpected disk id "@ + id@),
        },
{
    proof {
        reveal_strlit("Disk ");
    }
    let v = text::chars_of(id);
    let prefix = text::chars_of("Disk ");
    let n: usize = v.len();
    let mut at: usize = 0;
    proof {
        assert(v@.skip(0) =~= v@);
    }
    while text::pattern_at(&v, &prefix, at)
        invariant
            at <= n,
            n == v@.len(),
            v@ == id@,
            prefix@ == "Disk "@,
            prefix@.len() == 5,
            after_disk(id@) == after_disk(v@.skip(at as int)),
        decreases n - at,
    {
        proof {
            let rest = v@.skip(at as int);
            assert(rest.subrange(0, 5) =~= v@.subrange(at as int, at + 5));
            assert(rest.skip(5) =~= v@.skip(at + 5));
        }
        at = at + 5;
    }
    proof {
        let rest = v@.skip(at as int);
        if text::starts_with(rest, "Disk "@) {
            assert(rest.subrange(0, 5) =~= v@.subrange(at as int, at + 5));
        }
    }
    let rest = text::string_of_range(&v, at, n);
    proof {
        assert(rest@ =~= v@.skip(at as int));
    }
    match text::parse_unsigned(rest.as_str(), u32::MAX as u64) {
        Some(k) => Ok(k as u32),
        None => {
            let mut m = "unexpected disk id ".to_owned();
            m.append(id);
            Err(EngineError::Other(m))
        },
    }
}

/// How the system is made to let go of a drive so that it can be written raw,
/// after an event where one is due.
pub fn prepare_device(os: Os, device: &Device) -> (r: (Option<Event>, EngineResult<PreparePlan>))
    ensures
        match os {
            Os::MacOs => {
                &&& r.0 is None
                &&& r.1 matches Ok(PreparePlan::Commands(list))
                &&& tools::command_views(list@) == seq![
                    CommandView {
                        program: "diskutil"@,
                        args: seq!["unmountDisk"@, "force"@, device@.id],
                        what: "unmounting the drive"@,
                    },
                ]
            },
            Os::Linux => {
                &&& r.0 is None
                &&& r.1 matches Ok(PreparePlan::Commands(list))
                &&& tools::command_views(list@) == unmount_commands(
                    device@.mounted,
                    device@.mounted.len() as int,
                )
            },
            Os::Windows => {
                &&& r.0 is Some
                &&& r.0->0@ == (EventView::Log { line: "Clearing existing partitions"@ })
                &&& match text::unsigned(after_disk(device@.id), u32::MAX as nat) {
                    Some(n) => {
                        &&& r.1 matches Ok(PreparePlan::Diskpart(script))
                        &&& script@ == "select disk "@ + text::dec(n) + "\nclean\n"@
                    },
                    None => r.1 is Err && r.1->Err_0@ == ErrorView::Other(
                        "unexpected disk id "@ + device@.id,
                    ),
                }
            },
            Os::Other => {
                &&& r.0 is None
                &&& r.1 is Err
                &&& r.1->Err_0@ == ErrorView::Other("unsupported platform"@)
            },
        },
{
    match os {
        Os::MacOs => {
            let args: [&str; 3] = ["unmountDisk", "force", device.id.as_str()];
            let command = tools::tool("diskutil", &args, "unmounting the drive");
            let mut list: Vec<ToolCommand> = Vec::new();
            list.push(command);
            proof {
                assert(text::literals(args@) =~= seq!["unmountDisk"@, "force"@, device@.id]);
                assert(tools::command_views(list@) =~= seq![command@]);
            }
            (None, Ok(PreparePlan::Commands(list)))
        },
        Os::Linux => (None, Ok(PreparePlan::Commands(unmount_all(&device.mounted)))),
        Os::Windows => {
            let event = Event::Log { line: "Clearing existing partitions".to_owned() };
            match windows_disk_number(device.id.as_str()) {
                Ok(n) => {
                    let mut script = "select disk ".to_owned();
                    script.append(text::decimal(n as u64).as_str());
                    script.append("\nclean\n");
                    (Some(event), Ok(PreparePlan::Diskpart(script)))
                },
                Err(e) => (Some(event), Err(e)),
            }
        },
        Os::Other => (None, Err(EngineError::Other("unsupported platform".to_owned()))),
    }
}

/// The error for a drive that cannot be opened for writing.
pub fn open_for_write_error(node: &str, message: &str) -> (e: EngineError)
    ensures
        e@ == ErrorView::Other(
            "couldn't open "@ + node@ + " for writing: "@ + message@
                + " (administrator rights are required)"@,
        ),
{
    let mut m = "couldn't open ".to_owned();
    m.append(node);
    m.append(" for writing: ");
    m.append(message);
    m.append(" (administrator rights are required)");
    EngineError::Other(m)
}

/// The error for a drive that cannot be opened again to compare it.
pub fn open_for_read_error(node: &str, message: &str) -> (e: EngineError)
    ensures
        e@ == ErrorView::Other("couldn't reopen "@ + node@ + " to verify: "@ + message@),
{
    let mut m = "couldn't reopen ".to_owned();
    m.append(node);
    m.append(" to verify: ");
    m.append(message);
    EngineError::Other(m)
}

/// What a failed flush means. Some raw devices have nothing to flush and say
/// so with one of the codes in `nothing_to_flush`; that is no failure.
pub fn flush_device(code: Option<i32>, message: &str, nothing_to_flush: &Vec<i32>) -> (r:
    EngineResult<()>)
    ensures
        (code is Some && nothing_to_flush@.contains(code->0)) ==> r is Ok,
        !(code is Some && nothing_to_flush@.contains(code->0)) ==> r is Err && r->Err_0@
            == ErrorView::Other("flushing the drive failed: "@ + message@),
{
    match code {
        Some(c) => {
            let mut i: usize = 0;
            while i < nothing_to_flush.len()
                invariant
                    i <= nothing_to_flush@.len(),
                    code == Some(c),
                    forall|j: int| 0 <= j < i ==> nothing_to_flush@[j] != c,
                decreases nothing_to_flush@.len() - i,
            {
                if nothing_to_flush[i] == c {
                    return Ok(());
                }
                i = i + 1;
            }
        },
        None => {},
    }
    let mut m = "flushing the drive failed: ".to_owned();
    m.append(message);
    Err(EngineError::Other(m))
}

/// The command that ejects a drive, where the system needs one.
pub fn eject_command(os: Os, device: &Device) -> (r: Option<ToolCommand>)
    ensures
        os is MacOs ==> r is Some && r->0@ == (CommandView {
            program: "diskutil"@,
            args: seq!["eject"@, device@.id],
            what: "ejecting"@,
        }),
        !(os is MacOs) ==> r is None,
{
    match os {
        Os::MacOs => {
            let args: [&str; 2] = ["eject", device.id.as_str()];
            proof {
                assert(text::literals(args@) =~= seq!["eject"@, device@.id]);
            }
            Some(tools::tool("diskutil", &args, "ejecting"))
        },
        _ => None,
    }
}

/// The event after trying to eject: a failure only brings a hint.
pub fn eject_event(ejected: bool) -> (r: Option<Event>)
    ensures
        ejected ==> r is None,
        !ejected ==> r is Some && r->0@ == (EventView::Log {
            line: "Couldn't eject automatically — eject the drive before unplugging."@,
        }),
{
    if ejected {
        None
    } else {
        Some(
            Event::Log {
                line: "Couldn't eject automatically — eject the drive before unplugging.".to_owned(),
            },
        )
    }
}

/// Rounding gives a whole number of sectors that is not below the length and
/// less than one sector above it.
pub proof fn law_rounding_goes_to_the_next_sector(n: u64, r: u128)
    requires
        call_ensures(round_up, (n,), r),
    ensures
        r % 4096 == 0,
        n <= r < n + 4096,
{
}

/// Every byte that is read from the image is handed out at its place, and
/// what comes after it is zero and less than a sector long.
pub proof fn law_blocks_hold_what_was_read(
    run: &mut WriteRun,
    chunk: Vec<u8>,
    r: EngineResult<Vec<u8>>,
)
    requires
        run.wf(),
        chunk@.len() <= next_want(run.total(), run.done()),
        call_ensures(write_stream, (run, chunk), r),
    ensures
        r matches Ok(block) ==> {
            &&& chunk@.len() <= block@.len() < chunk@.len() + 4096
            &&& block@.len() % 4096 == 0
            &&& forall|i: int|
                0 <= i < block@.len() ==> #[trigger] block@[i] == (if i < chunk@.len() {
                    chunk@[i]
                } else {
                    0u8
                })
            &&& final(run).done() == old(run).done() + chunk@.len()
        },
        r is Err ==> final(run).done() == old(run).done(),
{
}

/// Every byte of a finished write is on the device at its place in the image.
pub proof fn law_written_bytes_are_in_place(run: WriteRun, i: int)
    requires
        run.wf(),
        run.done() == run.total(),
        0 <= i < run.total(),
    ensures
        run.image().len() == run.total(),
        i < run.blocks().len(),
        run.blocks()[i] == run.image()[i],
{
    law_complete_write(run);
}

proof fn lemma_first_difference(a: Seq<u8>, b: Seq<u8>, from: int)
    requires
        0 <= from <= a.len() <= b.len(),
    ensures
        from <= first_difference(a, b, from) <= a.len(),
        forall|i: int| from <= i < first_difference(a, b, from) ==> a[i] == b[i],
        first_difference(a, b, from) < a.len() ==> a[first_difference(a, b, from)]
            != b[first_difference(a, b, from)],
    decreases a.len() - from,
{
    if from < a.len() && a[from] == b[from] {
        lemma_first_difference(a, b, from + 1);
    }
}

/// A comparison goes through only where every byte of the image is on the
/// device; where one is not, the error names the first such byte.
pub proof fn law_every_byte_is_compared(
    run: &mut VerifyRun,
    image: &[u8],
    device: &[u8],
    r: EngineResult<()>,
)
    requires
        run.wf(),
        image@.len() <= next_want(run.total(), run.done()),
        device@.len() <= rounded_up(next_want(run.total(), run.done()) as nat),
        call_ensures(verify_stream, (run, image, device), r),
    ensures
        r is Ok ==> {
            &&& forall|i: int| 0 <= i < image@.len() ==> #[trigger] device@[i] == image@[i]
            &&& final(run).done() == old(run).done() + image@.len()
        },
        r is Err ==> final(run).done() == old(run).done(),
        (image@.len() == next_want(old(run).total(), old(run).done()) && image@.len()
            <= device@.len() && device@.len() % 4096 == 0 && r is Err) ==> exists|i: int|
            {
                &&& 0 <= i < image@.len()
                &&& #[trigger] device@[i] != image@[i]
                &&& forall|j: int| 0 <= j < i ==> device@[j] == image@[j]
                &&& r->Err_0@ == mismatch((old(run).done() + i) as nat)
            },
{
    let want = next_want(run.total(), run.done());
    if r is Ok {
        assert forall|i: int| 0 <= i < image@.len() implies #[trigger] device@[i] == image@[i] by {
            assert(device@.take(want)[i] == image@[i]);
        }
    } else if image@.len() == want && want <= device@.len() && device@.len() % 4096 == 0 {
        assert(device@.len() == rounded_up(want as nat));
        lemma_first_difference(image@, device@, 0);
        let i = first_difference(image@, device@, 0);
        if i == image@.len() {
            assert(device@.take(want) =~= image@);
        }
        assert(device@[i] != image@[i]);
    }
}

/// Reading goes on until everything was read, in pieces that no sector is
/// split by.
pub proof fn law_reading_goes_on(run: &WriteRun, cancel: &CancelToken, r: EngineResult<usize>)
    requires
        run.wf(),
        call_ensures(WriteRun::want, (run, cancel), r),
    ensures
        !cancel@ ==> r is Ok,
        cancel@ && run.done() < run.total() ==> r is Err,
        r matches Ok(n) ==> {
            &&& run.done() + n <= run.total()
            &&& run.done() < run.total() ==> n > 0
            &&& run.done() + n < run.total() ==> n % 4096 == 0
        },
{
}

/// What fits is written: an image is refused just where some sector of it
/// would lie behind the end of the drive, and nothing is done to the drive
/// then.
pub proof fn law_what_fits_is_written(
    total: u64,
    device: &Device,
    verify: bool,
    r: EngineResult<Vec<FlashAction>>,
    checked: EngineResult<()>,
)
    requires
        call_ensures(flash_raw, (total, device, verify), r),
        call_ensures(check_fits, (total, device.size), checked),
    ensures
        r is Ok == checked is Ok,
        r is Ok ==> total <= device.size,
        total + 4095 <= device.size ==> r is Ok,
        total <= device.size && device.size % 4096 == 0 ==> r is Ok,
        r matches Ok(list) ==> {
            &&& list@.len() >= 3
            &&& list@[0] == FlashAction::Prepare
            &&& list@[1] == FlashAction::Write
            &&& list@[2] == FlashAction::Flush
            &&& list@.contains(FlashAction::Verify) == verify
            &&& list@.last() == FlashAction::Finish
        },
{
    if r is Ok {
        let list = r->Ok_0;
        if verify {
            assert(list@[3] == FlashAction::Verify);
        } else {
            assert(list@.len() == 4);
            assert(list@[3] == FlashAction::Finish);
        }
    }
}

proof fn lemma_unmounts(mounted: Seq<Seq<char>>, n: int)
    requires
        0 <= n <= mounted.len(),
    ensures
        unmount_commands(mounted, n).len() == n,
        forall|i: int|
            0 <= i < n ==> (#[trigger] unmount_commands(mounted, n)[i]).program == "umount"@
                && unmount_commands(mounted, n)[i].args == seq![mounted[i]],
    decreases n,
{
    if n > 0 {
        lemma_unmounts(mounted, n - 1);
    }
}

/// Each mount point of a drive is unmounted, once and in order, and nothing
/// else is.
pub proof fn law_everything_is_unmounted(mounted: &Vec<String>, r: Vec<ToolCommand>)
    requires
        call_ensures(unmount_all, (mounted,), r),
    ensures
        r@.len() == mounted@.len(),
        forall|i: int|
            0 <= i < r@.len() ==> {
                &&& (#[trigger] r@[i]).program@ == "umount"@
                &&& r@[i].args@.len() == 1
                &&& r@[i].args@[0]@ == mounted@[i]@
            },
{
    let m = text::views(mounted@);
    lemma_unmounts(m, m.len() as int);
    let v = tools::command_views(r@);
    assert(v.len() == r@.len());
    assert forall|i: int| 0 <= i < r@.len() implies {
        &&& (#[trigger] r@[i]).program@ == "umount"@
        &&& r@[i].args@.len() == 1
        &&& r@[i].args@[0]@ == mounted@[i]@
    } by {
        assert(v[i] == r@[i]@);
        assert(text::views(r@[i].args@) == seq![m[i]]);
        assert(text::views(r@[i].args@).len() == 1);
        assert(text::views(r@[i].args@)[0] == r@[i].args@[0]@);
        assert(m[i] == mounted@[i]@);
    }
}

/// Preparing a drive acts on that drive alone: the commands name it, or the
/// places where it is mounted, and a script selects it by its number before it
/// clears anything.
pub proof fn law_only_the_drive_is_prepared(
    os: Os,
    device: &Device,
    r: (Option<Event>, EngineResult<PreparePlan>),
)
    requires
        call_ensures(prepare_device, (os, device), r),
    ensures
        os is MacOs ==> (r.1 matches Ok(PreparePlan::Commands(list)) && list@.len() == 1
            && list@[0].program@ == "diskutil"@ && list@[0].args@.len() == 3
            && list@[0].args@[0]@ == "unmountDisk"@ && list@[0].args@[2]@ == device.id@),
        os is Linux ==> (r.1 matches Ok(PreparePlan::Commands(list)) && list@.len()
            == device.mounted@.len()),
        os is Linux ==> (r.1 matches Ok(PreparePlan::Commands(list)) && forall|i: int|
            0 <= i < list@.len() ==> (#[trigger] list@[i]).args@.len() == 1 && list@[i].args@[0]@
                == device.mounted@[i]@),
        os is Other ==> r.1 is Err,
{
    let m = text::views(device.mounted@);
    assert(device@.mounted == m);
    match r.1 {
        Ok(PreparePlan::Commands(list)) => {
            let v = tools::command_views(list@);
            assert(v.len() == list@.len());
            assert forall|i: int| 0 <= i < list@.len() implies v[i] == (#[trigger] list@[i])@ by {}
            if os is MacOs {
                assert(v[0] == list@[0]@);
                let a = text::views(list@[0].args@);
                assert(a == seq!["unmountDisk"@, "force"@, device@.id]);
                assert(a.len() == 3);
                assert(a[0] == list@[0].args@[0]@ && a[2] == list@[0].args@[2]@);
            } else if os is Linux {
                lemma_unmounts(m, m.len() as int);
                assert forall|i: int| 0 <= i < list@.len() implies (#[trigger] list@[i]).args@.len()
                    == 1 && list@[i].args@[0]@ == device.mounted@[i]@ by {
                    assert(v[i] == list@[i]@);
                    let a = text::views(list@[i].args@);
                    assert(a == seq![m[i]]);
                    assert(a.len() == 1 && a[0] == list@[i].args@[0]@);
                }
            }
        },
        _ => {},
    }
}

pub proof fn lemma_after_disk_number(s: Seq<char>, n: nat)
    requires
        s == "Disk "@ + text::dec(n),
    ensures
        after_disk(s) == text::dec(n),
{
    reveal_strlit("Disk ");
    text::law_decimal_reads_back(n);
    let d = text::dec(n);
    assert(d.len() > 0 && '0' <= d[0] <= '9');
    assert(s.skip(5) =~= d);
    assert(s.take(5) =~= "Disk "@);
    assert(d[0] != 'D');
    if d.len() >= 5 {
        assert(d.take(5)[0] == d[0]);
        assert("Disk "@[0] == 'D');
    }
    reveal_with_fuel(after_disk, 3);
}

/// A disk is selected by the number in its name.
pub proof fn law_disk_number_is_read(id: &str, n: u32, r: EngineResult<u32>)
    requires
        id@ == "Disk "@ + text::dec(n as nat),
        call_ensures(windows_disk_number, (id,), r),
    ensures
        r == Ok::<u32, EngineError>(n),
{
    lemma_after_disk_number(id@, n as nat);
    text::law_decimal_reads_back(n as nat);
    assert('0' <= text::dec(n as nat)[0] <= '9');
}

/// Ejecting names the drive that was written.
pub proof fn law_the_drive_is_ejected(os: Os, device: &Device, r: Option<ToolCommand>)
    requires
        call_ensures(eject_command, (os, device), r),
    ensures
        r is Some == os is MacOs,
        r matches Some(c) ==> c.program@ == "diskutil"@ && c.args@.len() == 2 && c.args@[0]@
            == "eject"@ && c.args@[1]@ == device.id@,
{
    if r is Some {
        let a = text::views(r->0.args@);
        assert(a == seq!["eject"@, device@.id]);
        assert(a.len() == 2 && a[0] == r->0.args@[0]@ && a[1] == r->0.args@[1]@);
    }
}

/// Progress is let through when enough time went by, and the end always is.
pub proof fn law_the_end_is_told(
    throttle: &mut Throttle,
    now: u64,
    done: u64,
    total: u64,
    event: Option<Event>,
)
    requires
        call_ensures(progress_event, (throttle, now, done, total), event),
    ensures
        done == total ==> event is Some,
        old(throttle).last is None ==> event is Some,
        event matches Some(e) ==> e == (Event::Progress { done, total }),
        event is None ==> now - old(throttle).last->0 < 150 && final(throttle).last == old(throttle).last,
        (old(throttle).last is Some && now - old(throttle).last->0 >= 150) ==> event is Some
            && final(throttle).last == Some(now),
{
}

/// Only a device that says it has nothing to flush is let off; every other
/// failure is one.
pub proof fn law_failed_flush_is_an_error(
    code: i32,
    message: &str,
    nothing_to_flush: &Vec<i32>,
    r: EngineResult<()>,
    unknown: EngineResult<()>,
)
    requires
        call_ensures(flush_device, (Some(code), message, nothing_to_flush), r),
        call_ensures(flush_device, (None, message, nothing_to_flush), unknown),
    ensures
        r is Ok <==> nothing_to_flush@.contains(code),
        unknown is Err,
{
}

/// Comparing goes on until everything was compared: from the device come the
/// bytes of the image and the rest of their last sector.
pub proof fn law_comparing_goes_on(
    run: &VerifyRun,
    cancel: &CancelToken,
    r: EngineResult<(usize, usize)>,
)
    requires
        run.wf(),
        call_ensures(VerifyRun::want, (run, cancel), r),
    ensures
        !cancel@ ==> r is Ok,
        cancel@ && run.done() < run.total() ==> r is Err,
        r matches Ok((image, device)) ==> {
            &&& run.done() + image <= run.total()
            &&& run.done() < run.total() ==> image > 0
            &&& image <= device < image + 4096
            &&& device % 4096 == 0
        },
{
}

} // verus!
