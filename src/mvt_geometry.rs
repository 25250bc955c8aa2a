//! The geometry commands of a vector tile feature: move-to, line-to and
//! close-path, with zig-zag encoded coordinate deltas.
use vstd::prelude::*;

verus! {

/// A run of points started by a move-to, extended by line-tos, possibly
/// closed by a close-path.
#[derive(Debug, PartialEq, Eq)]
pub struct Path {
    pub points: Vec<(i32, i32)>,
    pub closed: bool,
}

/// A path as plain data.
pub struct PathView {
    pub points: Seq<(i32, i32)>,
    pub closed: bool,
}

impl Path {
    /// The path as plain data.
    pub open spec fn view(&self) -> PathView {
        PathView { points: self.points@, closed: self.closed }
    }
}

/// The paths as plain data.
pub open spec fn paths_view(ps: Seq<Path>) -> Seq<PathView> {
    ps.map_values(|p: Path| p.view())
}

/// The signed value of a zig-zag encoded parameter.
pub open spec fn zigzag(n: u32) -> int {
    if n % 2 == 0 {
        n as int / 2
    } else {
        -((n as int + 1) / 2)
    }
}

/// A coordinate that fits in 32 signed bits.
pub open spec fn in_i32(v: int) -> bool {
    -0x8000_0000 <= v < 0x8000_0000
}

/// `acc` with the point added: as a new path for a move-to (`op` 1), at the
/// end of the last path for a line-to.
pub open spec fn add_point(acc: Seq<PathView>, op: int, p: (i32, i32)) -> Seq<PathView> {
    if op == 1 {
        acc.push(PathView { points: seq![p], closed: false })
    } else {
        acc.update(
            acc.len() - 1,
            PathView { points: acc.last().points.push(p), closed: acc.last().closed },
        )
    }
}

/// The paths drawn by the commands from position `i` on, given the command
/// in progress (`op`), how many of its points are still to come (`left`),
/// the cursor, and the paths drawn so far. `None` when the stream is
/// malformed: an unknown command, a line-to or close-path before any
/// move-to, a point or close-path count of zero or a close-path count above
/// one, a missing parameter, or a cursor leaving the 32-bit range.
pub open spec fn paths_from(
    cmds: Seq<u32>,
    i: int,
    op: int,
    left: int,
    x: int,
    y: int,
    acc: Seq<PathView>,
) -> Option<Seq<PathView>>
    decreases cmds.len() - i,
{
    if i < 0 || i >= cmds.len() {
        if left == 0 {
            Some(acc)
        } else {
            None
        }
    } else if left == 0 {
        let id = cmds[i] % 8;
        let n = cmds[i] / 8;
        if (id == 1 || id == 2) && n > 0 && (id == 1 || acc.len() > 0) {
            paths_from(cmds, i + 1, id as int, n as int, x, y, acc)
        } else if id == 7 && n == 1 && acc.len() > 0 {
            paths_from(
                cmds,
                i + 1,
                0,
                0,
                x,
                y,
                acc.update(
                    acc.len() - 1,
                    PathView { points: acc.last().points, closed: true },
                ),
            )
        } else {
            None
        }
    } else if i + 1 >= cmds.len() {
        None
    } else {
        let nx = x + zigzag(cmds[i]);
        let ny = y + zigzag(cmds[i + 1]);
        if in_i32(nx) && in_i32(ny) {
            paths_from(cmds, i + 2, op, left - 1, nx, ny, add_point(acc, op, (nx as i32, ny as i32)))
        } else {
            None
        }
    }
}

/// The paths that a whole command stream draws, the cursor starting at the
/// origin.
pub open spec fn command_paths(cmds: Seq<u32>) -> Option<Seq<PathView>> {
    paths_from(cmds, 0, 0, 0, 0, 0, Seq::empty())
}

fn zigzag_decode(n: u32) -> (r: i64)
    ensures
        r == zigzag(n),
{
    if n % 2 == 0 {
        (n / 2) as i64
    } else {
        -(((n as i64) + 1) / 2)
    }
}

/// Runs a command stream and returns the paths it draws.
pub fn decode_commands(cmds: &Vec<u32>) -> (r: Option<Vec<Path>>)
    ensures
        match command_paths(cmds@) {
            Some(ps) => r is Some && paths_view(r->Some_0@) == ps,
            None => r is None,
        },
{
    let mut acc: Vec<Path> = Vec::new();
    let mut i: usize = 0;
    let mut op: u32 = 0;
    let mut left: u32 = 0;
    let mut x: i32 = 0;
    let mut y: i32 = 0;
    assert(paths_view(acc@) =~= Seq::<PathView>::empty());
    while i < cmds.len()
        invariant
            i <= cmds@.len(),
            command_paths(cmds@) == paths_from(
                cmds@,
                i as int,
                op as int,
                left as int,
                x as int,
                y as int,
                paths_view(acc@),
            ),
            left > 0 ==> op == 1 || (op == 2 && acc@.len() > 0),
        decreases cmds@.len() - i,
    {
        let ghost av = paths_view(acc@);
        if left == 0 {
            let id = cmds[i] % 8;
            let n = cmds[i] / 8;
            if (id == 1 || id == 2) && n > 0 && (id == 1 || acc.len() > 0) {
                op = id;
                left = n;
                i = i + 1;
            } else if id == 7 && n == 1 && acc.len() > 0 {
                let last = acc.pop().unwrap();
                acc.push(Path { points: last.points, closed: true });
                assert(paths_view(acc@) =~= av.update(
                    av.len() - 1,
                    PathView { points: av.last().points, closed: true },
                ));
                op = 0;
                i = i + 1;
            } else {
                return None;
            }
        } else {
            if i + 1 >= cmds.len() {
                return None;
            }
            let nx = x as i64 + zigzag_decode(cmds[i]);
            let ny = y as i64 + zigzag_decode(cmds[i + 1]);
            if !(-0x8000_0000 <= nx && nx < 0x8000_0000 && -0x8000_0000 <= ny && ny < 0x8000_0000) {
                return None;
            }
            let p: (i32, i32) = (nx as i32, ny as i32);
            if op == 1 {
                let first = vec![p];
                assert(first@ =~= seq![p]);
                acc.push(Path { points: first, closed: false });
                assert(paths_view(acc@) =~= add_point(av, 1, p));
            } else {
                let last = acc.pop().unwrap();
                let mut pts = last.points;
                pts.push(p);
                acc.push(Path { points: pts, closed: last.closed });
                assert(paths_view(acc@) =~= add_point(av, op as int, p));
            }
            x = nx as i32;
            y = ny as i32;
            left = left - 1;
            i = i + 2;
        }
    }
    if left == 0 {
        Some(acc)
    } else {
        None
    }
}

} // verus!
