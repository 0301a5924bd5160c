//! Launches of the program: what the command line asks for, and what a second
//! launch passes on to the one that is already running.

use vstd::prelude::*;

use crate::text;

verus! {

/// The flag that makes the program the elevated helper.
pub open spec fn helper_flag() -> Seq<char> {
    "--flash-helper"@
}

/// The flag for moving instead of copying.
pub open spec fn move_flag() -> Seq<char> {
    "--move"@
}

/// Something passed on from another launch.
#[derive(Debug, PartialEq, Eq)]
pub enum IpcMessage {
    /// A path, as text.
    Path(String),
    UseMoveMode,
}

/// What a message says, as characters.
#[verifier::ext_equal]
pub ghost enum MessageView {
    Path(Seq<char>),
    UseMoveMode,
}

impl View for IpcMessage {
    type V = MessageView;

    open spec fn view(&self) -> MessageView {
        match self {
            IpcMessage::Path(p) => MessageView::Path(p@),
            IpcMessage::UseMoveMode => MessageView::UseMoveMode,
        }
    }
}

pub open spec fn message_views(v: Seq<IpcMessage>) -> Seq<MessageView> {
    v.map_values(|m: IpcMessage| m@)
}

/// The messages that a launch brings: the mode, then the paths.
pub open spec fn launch_messages(paths: Seq<Seq<char>>, move_mode: bool) -> Seq<MessageView> {
    (if move_mode {
        seq![MessageView::UseMoveMode]
    } else {
        Seq::empty()
    }) + paths.map_values(|p: Seq<char>| MessageView::Path(p))
}

/// The messages of the launch that keeps running.
pub fn initial_messages(paths: &Vec<String>, move_mode: bool) -> (r: Vec<IpcMessage>)
    ensures
        message_views(r@) == launch_messages(text::views(paths@), move_mode),
{
    let ghost all = text::views(paths@);
    let ghost want = all.map_values(|p: Seq<char>| MessageView::Path(p));
    let ghost head = if move_mode {
        seq![MessageView::UseMoveMode]
    } else {
        Seq::<MessageView>::empty()
    };
    let mut r: Vec<IpcMessage> = Vec::new();
    if move_mode {
        r.push(IpcMessage::UseMoveMode);
    }
    proof {
        assert(message_views(r@) =~= head + want.take(0));
    }
    let mut i: usize = 0;
    while i < paths.len()
        invariant
            i <= paths@.len(),
            all == text::views(paths@),
            want == all.map_values(|p: Seq<char>| MessageView::Path(p)),
            message_views(r@) == head + want.take(i as int),
        decreases paths@.len() - i,
    {
        let ghost before = r@;
        let m = IpcMessage::Path(paths[i].clone());
        r.push(m);
        i = i + 1;
        proof {
            assert(m@ == want[i - 1]);
            assert(message_views(r@) =~= message_views(before).push(m@));
            assert(message_views(r@) =~= head + want.take(i as int));
        }
    }
    proof {
        assert(want.take(i as int) =~= want);
    }
    r
}

/// The lines that a second launch sends: the mode, then the paths.
pub open spec fn launch_lines(paths: Seq<Seq<char>>, move_mode: bool) -> Seq<Seq<char>> {
    (if move_mode {
        seq![move_flag()]
    } else {
        Seq::empty()
    }) + paths
}

/// The lines that a second launch sends to the one that is running.
pub fn forward(paths: &Vec<String>, move_mode: bool) -> (r: Vec<String>)
    ensures
        text::views(r@) == launch_lines(text::views(paths@), move_mode),
{
    let ghost all = text::views(paths@);
    let ghost head = if move_mode {
        seq![move_flag()]
    } else {
        Seq::<Seq<char>>::empty()
    };
    let mut r: Vec<String> = Vec::new();
    if move_mode {
        r.push("--move".to_owned());
    }
    proof {
        assert(text::views(r@) =~= head + all.take(0));
    }
    let mut i: usize = 0;
    while i < paths.len()
        invariant
            i <= paths@.len(),
            all == text::views(paths@),
            text::views(r@) == head + all.take(i as int),
        decreases paths@.len() - i,
    {
        let ghost before = r@;
        let p = paths[i].clone();
        r.push(p);
        i = i + 1;
        proof {
            text::views_push(before, p);
            assert(text::views(r@) =~= head + all.take(i as int));
        }
    }
    proof {
        assert(all.take(i as int) =~= all);
    }
    r
}

/// What a line received from another launch says; an empty one says nothing.
pub open spec fn line_message(line: Seq<char>) -> Option<MessageView> {
    if line == move_flag() {
        Some(MessageView::UseMoveMode)
    } else if line.len() > 0 {
        Some(MessageView::Path(line))
    } else {
        None
    }
}

/// What a line received from another launch says.
pub fn listen(line: String) -> (r: Option<IpcMessage>)
    ensures
        match line_message(line@) {
            Some(m) => r is Some && r->0@ == m,
            None => r is None,
        },
{
    if text::same_text(line.as_str(), "--move") {
        Some(IpcMessage::UseMoveMode)
    } else if !line.as_str().is_empty() {
        Some(IpcMessage::Path(line))
    } else {
        None
    }
}

/// The messages that the first `n` lines bring.
pub open spec fn lines_messages(lines: Seq<Seq<char>>, n: int) -> Seq<MessageView>
    decreases n,
{
    if n <= 0 {
        Seq::empty()
    } else {
        match line_message(lines[n - 1]) {
            Some(m) => lines_messages(lines, n - 1).push(m),
            None => lines_messages(lines, n - 1),
        }
    }
}

/// What a second launch passes on is what the running one would have had from
/// its own command line, as long as every path is a text and not the flag.
pub proof fn law_forwarded_launch(paths: Seq<Seq<char>>, move_mode: bool)
    requires
        forall|i: int|
            0 <= i < paths.len() ==> (#[trigger] paths[i]).len() > 0 && paths[i] != move_flag(),
    ensures
        lines_messages(
            launch_lines(paths, move_mode),
            launch_lines(paths, move_mode).len() as int,
        ) == launch_messages(paths, move_mode),
{
    let lines = launch_lines(paths, move_mode);
    let messages = launch_messages(paths, move_mode);
    assert forall|i: int| 0 <= i < lines.len() implies line_message(#[trigger] lines[i]) == Some(
        messages[i],
    ) by {
        if move_mode {
            if i > 0 {
                assert(lines[i] == paths[i - 1]);
            }
        } else {
            assert(lines[i] == paths[i]);
        }
    }
    lemma_all_lines(lines, messages, lines.len() as int);
    assert(messages.take(lines.len() as int) =~= messages);
}

proof fn lemma_all_lines(lines: Seq<Seq<char>>, messages: Seq<MessageView>, n: int)
    requires
        0 <= n <= lines.len(),
        messages.len() == lines.len(),
        forall|i: int| 0 <= i < lines.len() ==> line_message(#[trigger] lines[i]) == Some(
            messages[i],
        ),
    ensures
        lines_messages(lines, n) == messages.take(n),
    decreases n,
{
    if n > 0 {
        lemma_all_lines(lines, messages, n - 1);
        assert(line_message(lines[n - 1]) == Some(messages[n - 1]));
        assert(messages.take(n) =~= messages.take(n - 1).push(messages[n - 1]));
    } else {
        assert(messages.take(0) =~= Seq::<MessageView>::empty());
    }
}

/// What a launch is for.
#[derive(Debug, PartialEq, Eq)]
pub enum Launch {
    /// To carry out a job with administrator rights; the job file may be
    /// missing.
    Helper { job: Option<String> },
    /// To show a window with these paths.
    Window { paths: Vec<String>, move_mode: bool },
}

/// The arguments among the first `n` that are paths.
pub open spec fn path_args(args: Seq<Seq<char>>, n: int) -> Seq<Seq<char>>
    decreases n,
{
    if n <= 0 {
        Seq::empty()
    } else if args[n - 1] == move_flag() {
        path_args(args, n - 1)
    } else {
        path_args(args, n - 1).push(args[n - 1])
    }
}

/// What the arguments of a launch ask for.
pub fn read_arguments(args: &Vec<String>) -> (r: Launch)
    ensures
        ({
            let all = text::views(args@);
            if all.len() > 0 && all[0] == helper_flag() {
                &&& r matches Launch::Helper { job }
                &&& all.len() > 1 ==> job is Some && job->0@ == all[1]
                &&& all.len() <= 1 ==> job is None
            } else {
                &&& r matches Launch::Window { paths, move_mode }
                &&& text::views(paths@) == path_args(all, all.len() as int)
                &&& move_mode == all.contains(move_flag())
            }
        }),
{
    let ghost all = text::views(args@);
    if args.len() > 0 && text::same_text(args[0].as_str(), "--flash-helper") {
        proof {
            assert(all[0] == args@[0]@);
        }
        if args.len() > 1 {
            proof {
                assert(all[1] == args@[1]@);
            }
            return Launch::Helper { job: Some(args[1].clone()) };
        }
        return Launch::Helper { job: None };
    }
    proof {
        if args@.len() > 0 {
            assert(all[0] == args@[0]@);
        }
    }
    let mut paths: Vec<String> = Vec::new();
    let mut move_mode = false;
    let mut i: usize = 0;
    while i < args.len()
        invariant
            i <= args@.len(),
            all == text::views(args@),
            text::views(paths@) == path_args(all, i as int),
            move_mode == all.take(i as int).contains(move_flag()),
        decreases args@.len() - i,
    {
        let ghost before = paths@;
        let is_flag = text::same_text(args[i].as_str(), "--move");
        proof {
            assert(all[i as int] == args@[i as int]@);
            assert(all.take(i + 1) =~= all.take(i as int).push(all[i as int]));
            let longer = all.take(i + 1);
            if move_mode {
                let j = choose|j: int| 0 <= j < i && all.take(i as int)[j] == move_flag();
                assert(longer[j] == move_flag());
            }
            if is_flag {
                assert(longer[i as int] == move_flag());
            }
            if longer.contains(move_flag()) && !is_flag {
                let j = choose|j: int| 0 <= j < longer.len() && longer[j] == move_flag();
                assert(all.take(i as int)[j] == move_flag());
            }
        }
        if is_flag {
            move_mode = true;
        } else {
            let p = args[i].clone();
            paths.push(p);
            proof {
                text::views_push(before, p);
            }
        }
        i = i + 1;
    }
    proof {
        assert(all.take(i as int) =~= all);
    }
    Launch::Window { paths, move_mode }
}

/// The arguments that launch the helper for a job file.
pub fn helper_arguments(job: String) -> (r: Vec<String>)
    ensures
        text::views(r@) == seq![helper_flag(), job@],
{
    let mut r: Vec<String> = Vec::new();
    r.push("--flash-helper".to_owned());
    r.push(job);
    proof {
        assert(text::views(r@) =~= seq![helper_flag(), job@]);
    }
    r
}

/// What a second launch sends, line by line, is understood by the running one
/// as what its own launch would have brought.
pub proof fn law_sent_lines_are_understood(
    paths: &Vec<String>,
    move_mode: bool,
    lines: Vec<String>,
    messages: Vec<IpcMessage>,
    i: int,
    line: String,
    heard: Option<IpcMessage>,
)
    requires
        call_ensures(forward, (paths, move_mode), lines),
        call_ensures(initial_messages, (paths, move_mode), messages),
        0 <= i < lines@.len(),
        line@ == lines@[i]@,
        call_ensures(listen, (line,), heard),
        forall|k: int|
            0 <= k < paths@.len() ==> (#[trigger] paths@[k])@.len() > 0 && paths@[k]@
                != "--move"@,
    ensures
        lines@.len() == messages@.len(),
        heard is Some,
        heard->0@ == messages@[i]@,
        ({
            let first = if move_mode {
                1int
            } else {
                0int
            };
            &&& lines@.len() == paths@.len() + first
            &&& move_mode && i == 0 ==> heard->0 is UseMoveMode
            &&& i >= first ==> heard->0@ == MessageView::Path(paths@[i - first]@)
        }),
{
    reveal_strlit("--move");
    let v = text::views(paths@);
    let l = text::views(lines@);
    let m = message_views(messages@);
    let first = if move_mode {
        1int
    } else {
        0int
    };
    assert(v.len() == paths@.len() && l.len() == lines@.len() && m.len() == messages@.len());
    assert(l[i] == lines@[i]@);
    assert(m[i] == messages@[i]@);
    if i >= first {
        assert(v[i - first] == paths@[i - first]@);
        assert(paths@[i - first]@ != "--move"@);
        assert(l[i] == v[i - first]);
    }
}

proof fn lemma_path_args(args: Seq<Seq<char>>, n: int)
    requires
        0 <= n <= args.len(),
    ensures
        path_args(args, n).len() <= n,
        !path_args(args, n).contains(move_flag()),
        forall|i: int|
            0 <= i < n && #[trigger] args[i] != move_flag() ==> path_args(args, n).contains(args[i]),
        (forall|i: int| 0 <= i < n ==> #[trigger] args[i] != move_flag()) ==> path_args(args, n)
            == args.take(n),
    decreases n,
{
    if n > 0 {
        lemma_path_args(args, n - 1);
        let before = path_args(args, n - 1);
        let all = path_args(args, n);
        assert forall|i: int| 0 <= i < n && #[trigger] args[i] != move_flag() implies all.contains(
            args[i],
        ) by {
            if i < n - 1 {
                let k = choose|k: int| 0 <= k < before.len() && before[k] == args[i];
                assert(all[k] == args[i]);
            } else {
                assert(all.last() == args[i]);
            }
        }
        if all.contains(move_flag()) {
            let k = choose|k: int| 0 <= k < all.len() && all[k] == move_flag();
            if k < before.len() {
                assert(before[k] == move_flag());
            }
        }
        if forall|i: int| 0 <= i < n ==> #[trigger] args[i] != move_flag() {
            assert(all =~= args.take(n));
        }
    } else {
        assert(args.take(0) =~= Seq::empty());
    }
}

/// Every argument but the flag is a path, wherever the flag stands, and the
/// flag alone decides on moving.
pub proof fn law_arguments_are_paths(args: &Vec<String>, r: Launch, i: int)
    requires
        call_ensures(read_arguments, (args,), r),
        0 <= i < args@.len(),
        args@[0]@ != "--flash-helper"@,
    ensures
        r matches Launch::Window { paths, move_mode } && {
            &&& args@[i]@ == "--move"@ ==> move_mode
            &&& args@[i]@ != "--move"@ ==> text::views(paths@).contains(args@[i]@)
            &&& !text::views(paths@).contains("--move"@)
            &&& (forall|k: int| 0 <= k < args@.len() ==> (#[trigger] args@[k])@ != "--move"@) ==> {
                &&& !move_mode
                &&& text::views(paths@) == text::views(args@)
            }
        },
{
    let all = text::views(args@);
    assert(all.len() == args@.len());
    assert(all[0] == args@[0]@ && all[i] == args@[i]@);
    lemma_path_args(all, all.len() as int);
    assert(all.take(all.len() as int) =~= all);
    if forall|k: int| 0 <= k < args@.len() ==> (#[trigger] args@[k])@ != "--move"@ {
        assert forall|k: int| 0 <= k < all.len() implies #[trigger] all[k] != move_flag() by {
            assert(all[k] == args@[k]@);
        }
    }
}

/// The arguments made for the helper launch the helper, with the same job.
pub proof fn law_helper_gets_its_job(job: String, args: Vec<String>, r: Launch)
    requires
        call_ensures(helper_arguments, (job,), args),
        call_ensures(read_arguments, (&args,), r),
    ensures
        r matches Launch::Helper { job: Some(file) } && file@ == job@,
{
    let all = text::views(args@);
    assert(all.len() == 2);
    assert(all[0] == helper_flag() && all[1] == job@);
}

} // verus!
