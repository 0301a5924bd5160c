//! Which drives there are.

use vstd::prelude::*;

use crate::paths;
use crate::paths::{FilePath, PathView};

verus! {

/// What a look at the system showed of its drives.
#[derive(Debug, PartialEq, Eq)]
pub enum DriveProbe {
    /// The letters in use.
    Letters(Vec<char>),
    /// The mounted volumes beside the root.
    Volumes(Vec<FilePath>),
    /// One tree that starts at the root.
    SingleRoot,
}

pub open spec fn root_view() -> PathView {
    PathView { root: seq!['/'], parts: Seq::empty() }
}

/// The root of the drive with a letter.
pub open spec fn letter_root(letter: char) -> PathView {
    PathView { root: seq![letter, ':', '\\'], parts: Seq::empty() }
}

/// The roots of the drives, for the letters from A on before the one with the
/// code `n`, that are in use.
pub open spec fn letter_roots(used: Seq<char>, n: int) -> Seq<PathView>
    decreases n,
{
    if n <= 65 {
        Seq::empty()
    } else if used.contains((n - 1) as char) {
        letter_roots(used, n - 1).push(letter_root((n - 1) as char))
    } else {
        letter_roots(used, n - 1)
    }
}

/// The drives that a look at the system showed.
pub open spec fn drives_of(probe: DriveProbe) -> Seq<PathView> {
    match probe {
        DriveProbe::Letters(used) => letter_roots(used@, 91),
        DriveProbe::Volumes(volumes) => seq![root_view()] + paths::views(volumes@),
        DriveProbe::SingleRoot => seq![root_view()],
    }
}

fn unix_root() -> (p: FilePath)
    ensures
        p@ == root_view(),
{
    let mut root = String::new();
    root.push('/');
    let p = FilePath { root, parts: Vec::new() };
    proof {
        assert(p@ =~= root_view());
    }
    p
}

fn windows_root(letter: char) -> (p: FilePath)
    ensures
        p@ == letter_root(letter),
{
    let mut root = String::new();
    root.push(letter);
    root.push(':');
    root.push('\\');
    let p = FilePath { root, parts: Vec::new() };
    proof {
        assert(p@ =~= letter_root(letter));
    }
    p
}

/// The drives to offer: on Windows those with a letter, elsewhere the root
/// and the mounted volumes.
pub fn list_drives(probe: &DriveProbe) -> (r: Vec<FilePath>)
    ensures
        paths::views(r@) == drives_of(*probe),
{
    let mut r: Vec<FilePath> = Vec::new();
    match probe {
        DriveProbe::Letters(used) => {
            let mut letter: u8 = 65;
            proof {
                assert(paths::views(r@) =~= letter_roots(used@, 65));
            }
            while letter < 91
                invariant
                    65 <= letter <= 91,
                    paths::views(r@) == letter_roots(used@, letter as int),
                decreases 91 - letter,
            {
                let c = letter as char;
                let at: usize = crate::text::find_char(used, c, 0);
                proof {
                    if at < used@.len() {
                        assert(used@[at as int] == c);
                    }
                }
                if at < used.len() {
                    let p = windows_root(c);
                    proof {
                        paths::paths_push(r@, p);
                    }
                    r.push(p);
                }
                letter = letter + 1;
            }
        },
        DriveProbe::Volumes(volumes) => {
            r.push(unix_root());
            proof {
                assert(paths::views(r@) =~= seq![root_view()] + paths::views(volumes@).take(0));
            }
            let mut i: usize = 0;
            while i < volumes.len()
                invariant
                    i <= volumes@.len(),
                    paths::views(r@) == seq![root_view()] + paths::views(volumes@).take(i as int),
                decreases volumes@.len() - i,
            {
                let p = volumes[i].clone();
                let ghost before = r@;
                r.push(p);
                i = i + 1;
                proof {
                    paths::paths_push(before, p);
                    assert(paths::views(r@) =~= seq![root_view()] + paths::views(volumes@).take(
                        i as int,
                    ));
                }
            }
            proof {
                assert(paths::views(volumes@).take(i as int) =~= paths::views(volumes@));
            }
        },
        DriveProbe::SingleRoot => {
            r.push(unix_root());
            proof {
                assert(paths::views(r@) =~= seq![root_view()]);
            }
        },
    }
    r
}

proof fn lemma_letter_roots(used: Seq<char>, n: int, letter: char)
    requires
        65 <= n <= 91,
        'A' <= letter <= 'Z',
    ensures
        letter as int >= n ==> !letter_roots(used, n).contains(letter_root(letter)),
        (letter as int) < n ==> (letter_roots(used, n).contains(letter_root(letter))
            <==> used.contains(letter)),
        letter_roots(used, n).len() <= n - 65,
    decreases n,
{
    if n > 65 {
        lemma_letter_roots(used, n - 1, letter);
        let c = (n - 1) as char;
        assert(c as int == n - 1);
        let before = letter_roots(used, n - 1);
        let all = letter_roots(used, n);
        if used.contains(c) {
            assert(all == before.push(letter_root(c)));
            if letter != c {
                assert(letter_root(c).root[0] == c && letter_root(letter).root[0] == letter);
            }
            if before.contains(letter_root(letter)) {
                let k = choose|k: int| 0 <= k < before.len() && before[k] == letter_root(letter);
                assert(all[k] == letter_root(letter));
            }
            if letter == c {
                assert(all.last() == letter_root(letter));
            }
            if all.contains(letter_root(letter)) && letter != c {
                let k = choose|k: int| 0 <= k < all.len() && all[k] == letter_root(letter);
                assert(k < before.len());
                assert(before[k] == letter_root(letter));
            }
        }
    }
}

/// A drive is offered just where its letter is in use.
pub proof fn law_letters_in_use_are_drives(
    probe: &DriveProbe,
    used: Vec<char>,
    letter: char,
    r: Vec<FilePath>,
)
    requires
        *probe == DriveProbe::Letters(used),
        'A' <= letter <= 'Z',
        call_ensures(list_drives, (probe,), r),
    ensures
        paths::views(r@).contains(
            (PathView { root: seq![letter, ':', '\\'], parts: Seq::empty() }),
        ) <==> used@.contains(letter),
        r@.len() <= 26,
{
    lemma_letter_roots(used@, 91, letter);
    assert(paths::views(r@).len() == r@.len());
}

/// Where there are no letters, the root is offered first and then each volume,
/// in order.
pub proof fn law_root_comes_first(
    probe: &DriveProbe,
    volumes: Vec<FilePath>,
    r: Vec<FilePath>,
    single: &DriveProbe,
    one: Vec<FilePath>,
)
    requires
        *probe == DriveProbe::Volumes(volumes),
        *single == DriveProbe::SingleRoot,
        call_ensures(list_drives, (probe,), r),
        call_ensures(list_drives, (single,), one),
    ensures
        r@.len() == volumes@.len() + 1,
        r@[0]@ == (PathView { root: seq!['/'], parts: Seq::empty() }),
        forall|i: int| 0 <= i < volumes@.len() ==> r@[i + 1]@ == (#[trigger] volumes@[i])@,
        one@.len() == 1,
        one@[0]@ == r@[0]@,
{
    let v = paths::views(r@);
    let w = paths::views(volumes@);
    assert(v.len() == r@.len() && w.len() == volumes@.len());
    assert(v[0] == r@[0]@);
    assert forall|i: int| 0 <= i < volumes@.len() implies r@[i + 1]@ == (#[trigger] volumes@[i])@ by {
        assert(v[i + 1] == w[i]);
        assert(v[i + 1] == r@[i + 1]@);
    }
    let x = paths::views(one@);
    assert(x.len() == one@.len());
    assert(x[0] == one@[0]@);
}

} // verus!
