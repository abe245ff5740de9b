//! Session model: the catalog data the storage layer persists. A game is
//! an ordered list of target-activation windows against the target
//! catalog; the control core itself only consumes a target's node id.

use vstd::prelude::*;
use vstd::string::StringExecFns;

verus! {

/// The decimal digit character for `d`.
pub open spec fn digit_char(d: int) -> char {
    if d == 0 {
        '0'
    } else if d == 1 {
        '1'
    } else if d == 2 {
        '2'
    } else if d == 3 {
        '3'
    } else if d == 4 {
        '4'
    } else if d == 5 {
        '5'
    } else if d == 6 {
        '6'
    } else if d == 7 {
        '7'
    } else if d == 8 {
        '8'
    } else {
        '9'
    }
}

/// Decimal digits of `n` as characters, most significant first.
pub open spec fn dec_char_digits(n: nat) -> Seq<char>
    decreases n,
{
    if n < 10 {
        seq![digit_char(n as int)]
    } else {
        dec_char_digits(n / 10).push(digit_char((n % 10) as int))
    }
}

/// Decimal form of `n` as characters, with a leading minus when negative.
pub open spec fn dec_chars(n: int) -> Seq<char> {
    if n < 0 {
        seq!['-'] + dec_char_digits((-n) as nat)
    } else {
        dec_char_digits(n as nat)
    }
}

/// The visual asset path an image number selects.
pub open spec fn image_path_spec(image_num: int) -> Seq<char> {
    "assets/ShootingTarget_graphics"@ + dec_chars(image_num) + ".png"@
}

/// The one-character string for a decimal digit.
fn digit_str(d: u64) -> (r: &'static str)
    requires
        d < 10,
    ensures
        r@ == seq![digit_char(d as int)],
{
    if d == 0 {
        proof {
            reveal_strlit("0");
        }
        "0"
    } else if d == 1 {
        proof {
            reveal_strlit("1");
        }
        "1"
    } else if d == 2 {
        proof {
            reveal_strlit("2");
        }
        "2"
    } else if d == 3 {
        proof {
            reveal_strlit("3");
        }
        "3"
    } else if d == 4 {
        proof {
            reveal_strlit("4");
        }
        "4"
    } else if d == 5 {
        proof {
            reveal_strlit("5");
        }
        "5"
    } else if d == 6 {
        proof {
            reveal_strlit("6");
        }
        "6"
    } else if d == 7 {
        proof {
            reveal_strlit("7");
        }
        "7"
    } else if d == 8 {
        proof {
            reveal_strlit("8");
        }
        "8"
    } else {
        proof {
            reveal_strlit("9");
        }
        "9"
    }
}

/// Appends the decimal digits of `n` to `s`.
fn append_digit_chars(s: &mut String, n: u64)
    ensures
        final(s)@ == old(s)@ + dec_char_digits(n as nat),
    decreases n,
{
    if n < 10 {
        s.append(digit_str(n));
        assert(s@ =~= old(s)@ + dec_char_digits(n as nat));
    } else {
        append_digit_chars(s, n / 10);
        s.append(digit_str(n % 10));
        assert(s@ =~= old(s)@ + dec_char_digits(n as nat));
    }
}

/// Logical identity of a physical target unit. The distance travels as an
/// opaque 64-bit value whose encoding the caller chooses; nothing here
/// interprets it.
#[derive(Clone, Copy, Debug)]
pub struct Target {
    pub id: Option<i32>,
    pub node_id: i32,
    pub distance: u64,
    pub image_num: i32,
}

impl Target {
    /// The path of the visual asset this target's image number selects.
    pub fn image_path(&self) -> (r: String)
        ensures
            r@ == image_path_spec(self.image_num as int),
    {
        let mut path = String::from_str("assets/ShootingTarget_graphics");
        if self.image_num < 0 {
            proof {
                reveal_strlit("-");
            }
            path.append("-");
            let magnitude = (-(self.image_num as i64)) as u64;
            assert(magnitude as int == -(self.image_num as int));
            append_digit_chars(&mut path, magnitude);
        } else {
            append_digit_chars(&mut path, self.image_num as u64);
        }
        path.append(".png");
        proof {
            assert(path@ =~= image_path_spec(self.image_num as int));
        }
        path
    }
}

/// One activation window of a game: the target it shows, and the offsets
/// from session start at which it appears and disappears.
#[derive(Clone, Copy, Debug)]
pub struct GameTarget {
    pub id: Option<i32>,
    pub target: Target,
    pub start_time: i32,
    pub end_time: i32,
}

/// A window as the caller hands it in when creating or updating a game:
/// the target by its id, with the activation offsets.
#[derive(Clone, Copy, Debug)]
pub struct GameTargetInput {
    pub target_id: i32,
    pub start_time: i32,
    pub end_time: i32,
}

/// A game: a named, timed session over an ordered list of activation
/// windows. The windows are exclusively owned by their game; deleting a
/// game deletes them with it.
#[derive(Clone, Debug)]
pub struct Game {
    pub id: Option<i32>,
    pub name: String,
    pub total_time: i32,
    pub targets: Vec<GameTarget>,
}

/// A window is valid when it opens at a non-negative offset and closes
/// strictly after it opens.
pub open spec fn window_valid(start_time: i32, end_time: i32) -> bool {
    0 <= start_time < end_time
}

/// Windows are listed in order of their start offsets (not necessarily
/// distinct).
pub open spec fn windows_ordered(s: Seq<GameTarget>) -> bool {
    forall|i: int, j: int| 0 <= i < j < s.len() ==> s[i].start_time <= s[j].start_time
}

/// A game is valid when each window is valid and closes no later than the
/// game's total time, and the windows are ordered by start offset.
pub open spec fn game_valid(g: Game) -> bool {
    &&& forall|i: int|
        0 <= i < g.targets@.len() ==> window_valid(g.targets@[i].start_time, g.targets@[i].end_time)
    &&& forall|i: int| 0 <= i < g.targets@.len() ==> g.targets@[i].end_time <= g.total_time
    &&& windows_ordered(g.targets@)
}

/// Handed-in windows listed in order of their start offsets (not
/// necessarily distinct).
pub open spec fn inputs_ordered(s: Seq<GameTargetInput>) -> bool {
    forall|i: int, j: int| 0 <= i < j < s.len() ==> s[i].start_time <= s[j].start_time
}

/// The same conditions on windows as the caller hands them in, before ids
/// are assigned.
pub open spec fn inputs_valid(s: Seq<GameTargetInput>, total_time: i32) -> bool {
    &&& forall|i: int| 0 <= i < s.len() ==> window_valid(s[i].start_time, s[i].end_time)
    &&& forall|i: int| 0 <= i < s.len() ==> s[i].end_time <= total_time
}

/// Decides whether a game is valid: every window well-formed and within
/// the total time, and the list ordered by start offset.
pub fn game_is_valid(g: &Game) -> (r: bool)
    ensures
        r == game_valid(*g),
{
    let mut i: usize = 0;
    while i < g.targets.len()
        invariant
            i <= g.targets@.len(),
            forall|k: int|
                0 <= k < i ==> window_valid(g.targets@[k].start_time, g.targets@[k].end_time),
            forall|k: int| 0 <= k < i ==> g.targets@[k].end_time <= g.total_time,
            forall|k: int, l: int|
                0 <= k < l < i ==> g.targets@[k].start_time <= g.targets@[l].start_time,
        decreases g.targets@.len() - i,
    {
        let w = g.targets[i];
        if !(0 <= w.start_time && w.start_time < w.end_time && w.end_time <= g.total_time) {
            return false;
        }
        if i > 0 && g.targets[i - 1].start_time > w.start_time {
            return false;
        }
        assert forall|k: int, l: int|
            0 <= k < l < i + 1 implies g.targets@[k].start_time <= g.targets@[l].start_time by {
            if l == i as int {
                assert(g.targets@[k].start_time <= g.targets@[i - 1].start_time);
            }
        }
        i = i + 1;
    }
    true
}

/// Decides whether a list of handed-in windows is valid against a total
/// time: every window well-formed and closing within the total time.
pub fn inputs_are_valid(windows: &Vec<GameTargetInput>, total_time: i32) -> (r: bool)
    ensures
        r == inputs_valid(windows@, total_time),
{
    let mut i: usize = 0;
    while i < windows.len()
        invariant
            i <= windows@.len(),
            forall|k: int|
                0 <= k < i ==> window_valid(windows@[k].start_time, windows@[k].end_time),
            forall|k: int| 0 <= k < i ==> windows@[k].end_time <= total_time,
        decreases windows@.len() - i,
    {
        let w = windows[i];
        if !(0 <= w.start_time && w.start_time < w.end_time && w.end_time <= total_time) {
            return false;
        }
        i = i + 1;
    }
    true
}

} // verus!
