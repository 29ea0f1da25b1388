//! How deeply the data items of DAG-CBOR data nest, as a reader that
//! follows the data item by item sees it: each array, map or tag opens a
//! level that lasts until its last item is read.
//!
//! Reading the links of DAG-CBOR data descends one level of the call stack
//! per open level, with no limit of its own; the store reads the links of
//! data only when its nesting stays within `MAX_CBOR_NESTING`.
use vstd::prelude::*;

verus! {

/// The most levels of DAG-CBOR nesting whose links the store reads.
pub const MAX_CBOR_NESTING: usize = 1024;

/// A level the reader has open.
#[derive(Clone, Copy, Debug, PartialEq, Eq, Structural)]
pub enum Open {
    /// Items still to read of an array or map of known length (a map of
    /// `n` pairs holds `2 * n` items); the top level holds one item.
    Items(u128),
    /// An array of indefinite length, ended by `0xff`.
    IndefArray,
    /// A map of indefinite length, before a key (or the ending `0xff`).
    IndefMapKey,
    /// A map of indefinite length, before a value.
    IndefMapValue,
}

/// One move of the reader: it stops, with whether the nesting stayed
/// within the limit, or goes on at a position with the levels open there.
pub enum Step {
    Done(bool),
    Next(int, Seq<Open>),
}

/// How many bytes follow the first byte of an item to give its argument,
/// by the low five bits of the first byte (up to 27).
pub open spec fn extra_bytes(minor: int) -> nat {
    if minor < 24 {
        0
    } else if minor == 24 {
        1
    } else if minor == 25 {
        2
    } else if minor == 26 {
        4
    } else {
        8
    }
}

/// The big-endian number held by the `n` bytes of `data` from `start`.
pub open spec fn be_value(data: Seq<u8>, start: int, n: nat) -> nat
    decreases n,
{
    if n == 0 {
        0
    } else {
        be_value(data, start, (n - 1) as nat) * 256 + data[start + n - 1] as nat
    }
}

/// The argument of the item at `pos` whose first byte has low bits
/// `minor`: the bits themselves below 24, else the bytes after it.
pub open spec fn arg_value(data: Seq<u8>, pos: int, minor: int) -> nat {
    if minor < 24 {
        minor as nat
    } else {
        be_value(data, pos + 1, extra_bytes(minor))
    }
}

/// The bytes left from `pos`.
pub open spec fn remaining(len: int, pos: int) -> nat {
    if pos < len {
        (len - pos) as nat
    } else {
        0
    }
}

/// Opens a level, if one more level stays within `limit`.
pub open spec fn open_level(pos: int, cf: Seq<Open>, o: Open, limit: nat) -> Step {
    if cf.len() + 1 > limit {
        Step::Done(false)
    } else {
        Step::Next(pos, cf.push(o))
    }
}

/// Reads the item at `pos`, the levels open after it being `cf` (and the
/// level it opens, if any). The reader stops where the data ends or holds
/// a byte no item starts with; it stops with `false` where a level more
/// than `limit` would open, or where a string's length points backwards.
pub open spec fn read_item(data: Seq<u8>, pos: int, cf: Seq<Open>, limit: nat) -> Step {
    let len = data.len() as int;
    if pos < 0 || pos >= len {
        Step::Done(true)
    } else {
        let b = data[pos] as int;
        let major = b / 32;
        let minor = b % 32;
        if major <= 1 {
            if minor <= 27 {
                Step::Next(pos + 1 + extra_bytes(minor), cf)
            } else {
                Step::Done(true)
            }
        } else if major <= 3 {
            if minor > 27 || pos + 1 + extra_bytes(minor) > len {
                Step::Done(true)
            } else if arg_value(data, pos, minor) >= 0x8000_0000_0000_0000 {
                Step::Done(false)
            } else {
                Step::Next(pos + 1 + extra_bytes(minor) + arg_value(data, pos, minor), cf)
            }
        } else if major <= 5 {
            if minor <= 27 {
                if pos + 1 + extra_bytes(minor) > len {
                    Step::Done(true)
                } else {
                    let n = if major == 4 {
                        arg_value(data, pos, minor)
                    } else {
                        2 * arg_value(data, pos, minor)
                    };
                    open_level(pos + 1 + extra_bytes(minor), cf, Open::Items(n as u128), limit)
                }
            } else if minor == 31 {
                open_level(
                    pos + 1,
                    cf,
                    if major == 4 {
                        Open::IndefArray
                    } else {
                        Open::IndefMapKey
                    },
                    limit,
                )
            } else {
                Step::Done(true)
            }
        } else if b == 0xd8 {
            if pos + 1 >= len {
                Step::Done(true)
            } else if data[pos + 1] == 42 {
                if len - pos > 3 && data[pos + 2] == 0x58 {
                    Step::Next(pos + 4 + data[pos + 3] as int, cf)
                } else {
                    Step::Done(true)
                }
            } else {
                open_level(pos + 2, cf, Open::Items(1), limit)
            }
        } else if major == 7 && 20 <= minor <= 27 {
            Step::Next(pos + 1 + extra_bytes(minor), cf)
        } else {
            Step::Done(true)
        }
    }
}

/// One move of the reader at `pos` with the levels `frames` open.
pub open spec fn step(data: Seq<u8>, pos: int, frames: Seq<Open>, limit: nat) -> Step {
    if frames.len() == 0 {
        Step::Done(true)
    } else {
        let rest = frames.drop_last();
        match frames.last() {
            Open::Items(n) => if n == 0 {
                Step::Next(pos, rest)
            } else {
                read_item(data, pos, rest.push(Open::Items((n - 1) as u128)), limit)
            },
            Open::IndefArray => if pos >= data.len() {
                Step::Done(true)
            } else if pos >= 0 && data[pos] == 0xff {
                Step::Next(pos + 1, rest)
            } else {
                read_item(data, pos, frames, limit)
            },
            Open::IndefMapKey => if pos >= data.len() {
                Step::Done(true)
            } else if pos >= 0 && data[pos] == 0xff {
                Step::Next(pos + 1, rest)
            } else {
                read_item(data, pos, rest.push(Open::IndefMapValue), limit)
            },
            Open::IndefMapValue => read_item(data, pos, rest.push(Open::IndefMapKey), limit),
        }
    }
}

proof fn lemma_step_decreases(data: Seq<u8>, pos: int, frames: Seq<Open>, limit: nat)
    ensures
        step(data, pos, frames, limit) matches Step::Next(p, f) ==> (remaining(
            data.len() as int,
            p,
        ) < remaining(data.len() as int, pos) || (remaining(data.len() as int, p) == remaining(
            data.len() as int,
            pos,
        ) && f.len() < frames.len())),
{
}

/// Whether the reader, from `pos` with the levels `frames` open, never
/// opens more than `limit` levels.
pub open spec fn walk(data: Seq<u8>, pos: int, frames: Seq<Open>, limit: nat) -> bool
    decreases remaining(data.len() as int, pos), frames.len(),
{
    match step(data, pos, frames, limit) {
        Step::Done(b) => b,
        Step::Next(p, f) => walk(data, p, f, limit),
    }
}

/// Whether the data items of `data` nest at most `limit` levels deep, the
/// top level counted, as read from its start.
pub open spec fn cbor_nesting_within(data: Seq<u8>, limit: nat) -> bool {
    walk(data, 0, seq![Open::Items(1)], limit)
}

proof fn lemma_walk_past_end(data: Seq<u8>, pos: int, frames: Seq<Open>, limit: nat)
    requires
        pos >= data.len(),
    ensures
        walk(data, pos, frames, limit),
    decreases frames.len(),
{
    if frames.len() > 0 {
        let rest = frames.drop_last();
        match frames.last() {
            Open::Items(n) => if n == 0 {
                lemma_walk_past_end(data, pos, rest, limit);
            },
            _ => {},
        }
    }
}

/// The value of the bytes a big-endian number of `n` bytes stays below.
spec fn byte_bound(n: nat) -> nat
    decreases n,
{
    if n == 0 {
        1
    } else {
        byte_bound((n - 1) as nat) * 256
    }
}

proof fn lemma_be_value_bound(data: Seq<u8>, start: int, n: nat)
    ensures
        be_value(data, start, n) < byte_bound(n),
    decreases n,
{
    if n > 0 {
        lemma_be_value_bound(data, start, (n - 1) as nat);
    }
}

proof fn lemma_byte_bound_mono(i: nat, j: nat)
    requires
        i <= j,
    ensures
        byte_bound(i) <= byte_bound(j),
    decreases j,
{
    if i < j {
        lemma_byte_bound_mono(i, (j - 1) as nat);
    }
}

/// The argument of the item at `pos` (low bits `minor`, at most 27), its
/// bytes all within `data`.
fn read_arg(data: &[u8], pos: usize, minor: u8) -> (r: u128)
    requires
        minor <= 27,
        pos + 1 + extra_bytes(minor as int) <= data@.len(),
    ensures
        r == arg_value(data@, pos as int, minor as int),
        r < 0x1_0000_0000_0000_0000,
{
    if minor < 24 {
        return minor as u128;
    }
    let k: usize = if minor == 24 {
        1
    } else if minor == 25 {
        2
    } else if minor == 26 {
        4
    } else {
        8
    };
    assert(k == extra_bytes(minor as int));
    proof {
        reveal_with_fuel(byte_bound, 9);
        assert(byte_bound(8) == 0x1_0000_0000_0000_0000);
    }
    let dlen = data.len();
    let mut acc: u128 = 0;
    let mut i: usize = 0;
    while i < k
        invariant
            k <= 8,
            dlen == data@.len(),
            k == extra_bytes(minor as int),
            pos + 1 + k <= data@.len(),
            i <= k,
            acc == be_value(data@, pos + 1, i as nat),
            acc < byte_bound(i as nat),
            byte_bound(8) == 0x1_0000_0000_0000_0000,
        decreases k - i,
    {
        proof {
            lemma_byte_bound_mono((i + 1) as nat, 8);
            assert(byte_bound((i + 1) as nat) == byte_bound(i as nat) * 256);
        }
        let at: usize = pos + 1 + i;
        acc = acc * 256 + data[at] as u128;
        i += 1;
    }
    proof {
        lemma_byte_bound_mono(k as nat, 8);
    }
    acc
}

enum Moved {
    Stop(bool),
    At(usize),
}

/// Opens a level on `cf`, if one more level stays within `limit`.
fn open_level_exec(
    data: &[u8],
    pos: u128,
    cf: &mut Vec<Open>,
    o: Open,
    limit: usize,
) -> (r: Moved)
    ensures
        match r {
            Moved::Stop(b) => b == after(data@, open_level(pos as int, old(cf)@, o, limit as nat), limit as nat),
            Moved::At(p) => open_level(pos as int, old(cf)@, o, limit as nat) == Step::Next(
                p as int,
                final(cf)@,
            ) && p < data@.len(),
        },
{
    if cf.len() >= limit {
        return Moved::Stop(false);
    }
    if pos >= data.len() as u128 {
        proof {
            lemma_walk_past_end(data@, pos as int, old(cf)@.push(o), limit as nat);
        }
        return Moved::Stop(true);
    }
    cf.push(o);
    Moved::At(pos as usize)
}

/// Goes on at `pos` with the levels `cf` open, if `pos` is within `data`.
fn go_on(data: &[u8], pos: u128, cf: &Vec<Open>, limit: usize) -> (r: Moved)
    ensures
        match r {
            Moved::Stop(b) => b == walk(data@, pos as int, cf@, limit as nat),
            Moved::At(p) => p == pos && p < data@.len(),
        },
{
    if pos >= data.len() as u128 {
        proof {
            lemma_walk_past_end(data@, pos as int, cf@, limit as nat);
        }
        Moved::Stop(true)
    } else {
        Moved::At(pos as usize)
    }
}

/// What the reader does after a move: its result where it stops, else the
/// rest of its walk.
pub open spec fn after(data: Seq<u8>, s: Step, limit: nat) -> bool {
    match s {
        Step::Done(b) => b,
        Step::Next(p, f) => walk(data, p, f, limit),
    }
}

/// Reads the item at `pos`, `cf` holding the levels open after it.
fn read_item_exec(data: &[u8], pos: usize, cf: &mut Vec<Open>, limit: usize) -> (r: Moved)
    ensures
        match r {
            Moved::Stop(b) => b == after(
                data@,
                read_item(data@, pos as int, old(cf)@, limit as nat),
                limit as nat,
            ),
            Moved::At(p) => read_item(data@, pos as int, old(cf)@, limit as nat) == Step::Next(
                p as int,
                final(cf)@,
            ) && p < data@.len(),
        },
{
    let len = data.len();
    if pos >= len {
        return Moved::Stop(true);
    }
    let b = data[pos];
    let major = b / 32;
    let minor = b % 32;
    let p1: u128 = pos as u128 + 1;
    if major <= 1 {
        if minor <= 27 {
            let e: u128 = if minor < 24 { 0 } else if minor == 24 { 1 } else if minor == 25 { 2 } else if minor == 26 { 4 } else { 8 };
            assert(e == extra_bytes(minor as int));
            go_on(data, p1 + e, cf, limit)
        } else {
            Moved::Stop(true)
        }
    } else if major <= 3 {
        if minor > 27 {
            return Moved::Stop(true);
        }
        let e: u128 = if minor < 24 { 0 } else if minor == 24 { 1 } else if minor == 25 { 2 } else if minor == 26 { 4 } else { 8 };
        assert(e == extra_bytes(minor as int));
        if p1 + e > len as u128 {
            return Moved::Stop(true);
        }
        let l = read_arg(data, pos, minor);
        if l >= 0x8000_0000_0000_0000 {
            return Moved::Stop(false);
        }
        go_on(data, p1 + e + l, cf, limit)
    } else if major <= 5 {
        if minor <= 27 {
            let e: u128 = if minor < 24 { 0 } else if minor == 24 { 1 } else if minor == 25 { 2 } else if minor == 26 { 4 } else { 8 };
            assert(e == extra_bytes(minor as int));
            if p1 + e > len as u128 {
                return Moved::Stop(true);
            }
            let l = read_arg(data, pos, minor);
            let n: u128 = if major == 4 {
                l
            } else {
                2 * l
            };
            open_level_exec(data, p1 + e, cf, Open::Items(n), limit)
        } else if minor == 31 {
            let o = if major == 4 {
                Open::IndefArray
            } else {
                Open::IndefMapKey
            };
            open_level_exec(data, p1, cf, o, limit)
        } else {
            Moved::Stop(true)
        }
    } else if b == 0xd8 {
        if pos + 1 >= len {
            Moved::Stop(true)
        } else if data[pos + 1] == 42 {
            if len - pos > 3 && data[pos + 2] == 0x58 {
                let np: u128 = pos as u128 + 4 + data[pos + 3] as u128;
                go_on(data, np, cf, limit)
            } else {
                Moved::Stop(true)
            }
        } else {
            open_level_exec(data, p1 + 1, cf, Open::Items(1), limit)
        }
    } else if major == 7 && 20 <= minor && minor <= 27 {
        let e: u128 = if minor < 24 { 0 } else if minor == 24 { 1 } else if minor == 25 { 2 } else if minor == 26 { 4 } else { 8 };
        assert(e == extra_bytes(minor as int));
        go_on(data, p1 + e, cf, limit)
    } else {
        Moved::Stop(true)
    }
}

/// Whether the data items of `data` nest at most `limit` levels deep, the
/// top level counted, as a reader following them from the start sees it.
pub fn dag_cbor_nesting_within(data: &[u8], limit: usize) -> (r: bool)
    ensures
        r == cbor_nesting_within(data@, limit as nat),
{
    let mut frames: Vec<Open> = Vec::new();
    frames.push(Open::Items(1));
    assert(frames@ =~= seq![Open::Items(1)]);
    let mut pos: usize = 0;
    loop
        invariant
            pos <= data@.len(),
            walk(data@, pos as int, frames@, limit as nat) == cbor_nesting_within(
                data@,
                limit as nat,
            ),
        decreases remaining(data@.len() as int, pos as int), frames@.len(),
    {
        let ghost old_frames = frames@;
        proof {
            lemma_step_decreases(data@, pos as int, old_frames, limit as nat);
        }
        let n = frames.len();
        if n == 0 {
            return true;
        }
        let top = frames[n - 1];
        let moved = match top {
            Open::Items(k) => {
                frames.pop();
                if k == 0 {
                    proof {
                        assert(frames@ =~= old_frames.drop_last());
                    }
                    Moved::At(pos)
                } else {
                    frames.push(Open::Items(k - 1));
                    proof {
                        assert(frames@ =~= old_frames.drop_last().push(Open::Items((k - 1) as u128)));
                    }
                    read_item_exec(data, pos, &mut frames, limit)
                }
            },
            Open::IndefArray => {
                if pos >= data.len() {
                    return true;
                }
                if data[pos] == 0xff {
                    frames.pop();
                    proof {
                        assert(frames@ =~= old_frames.drop_last());
                    }
                    if pos + 1 >= data.len() {
                        proof {
                            lemma_walk_past_end(data@, pos + 1, frames@, limit as nat);
                        }
                        return true;
                    }
                    Moved::At(pos + 1)
                } else {
                    read_item_exec(data, pos, &mut frames, limit)
                }
            },
            Open::IndefMapKey => {
                if pos >= data.len() {
                    return true;
                }
                frames.pop();
                if data[pos] == 0xff {
                    proof {
                        assert(frames@ =~= old_frames.drop_last());
                    }
                    if pos + 1 >= data.len() {
                        proof {
                            lemma_walk_past_end(data@, pos + 1, frames@, limit as nat);
                        }
                        return true;
                    }
                    Moved::At(pos + 1)
                } else {
                    frames.push(Open::IndefMapValue);
                    proof {
                        assert(frames@ =~= old_frames.drop_last().push(Open::IndefMapValue));
                    }
                    read_item_exec(data, pos, &mut frames, limit)
                }
            },
            Open::IndefMapValue => {
                frames.pop();
                frames.push(Open::IndefMapKey);
                proof {
                    assert(frames@ =~= old_frames.drop_last().push(Open::IndefMapKey));
                }
                read_item_exec(data, pos, &mut frames, limit)
            },
        };
        match moved {
            Moved::Stop(b) => {
                return b;
            },
            Moved::At(p) => {
                pos = p;
            },
        }
    }
}

/// Whether an item starting with the byte `b` opens a level even when
/// the data ends right after it: an array or map of at most 23 items
/// given in `b` itself, or of indefinite length.
pub open spec fn opens_level(b: u8) -> bool {
    (0x80 <= b <= 0x97) || b == 0x9f || (0xa0 <= b <= 0xb7) || b == 0xbf
}

/// Data of one byte nests one level, or two if the byte opens an array or
/// a map: integers, simple values (`false`, `true`, `null`, undefined),
/// strings and tags whose data is cut off open nothing.
pub proof fn law_one_byte_nesting(b: u8, limit: nat)
    requires
        limit >= 1,
    ensures
        cbor_nesting_within(seq![b], limit) == (limit >= 2 || !opens_level(b)),
{
    reveal_with_fuel(walk, 4);
    let data = seq![b];
    let top = seq![Open::Items(1)];
    let cf = top.drop_last().push(Open::Items(0));
    assert(cf =~= seq![Open::Items(0)]);
    assert(data.len() == 1);
    assert(cf.drop_last() =~= Seq::<Open>::empty());
    lemma_walk_past_end(data, 1, cf, limit);
    lemma_walk_past_end(data, 1, cf.push(Open::Items(0)), limit);
    lemma_walk_past_end(data, 1, cf.push(Open::IndefArray), limit);
    lemma_walk_past_end(data, 1, cf.push(Open::IndefMapKey), limit);
    let major = b as int / 32;
    let minor = b as int % 32;
    if major == 4 || major == 5 {
        if minor <= 27 {
            if minor < 24 {
                assert(arg_value(data, 0, minor) == minor);
                let n: nat = if major == 4 {
                    minor as nat
                } else {
                    2 * minor as nat
                };
                lemma_walk_past_end(data, 1, cf.push(Open::Items(n as u128)), limit);
            }
        }
    } else if major <= 3 {
        if minor <= 27 {
            lemma_walk_past_end(
                data,
                (1 + extra_bytes(minor) + arg_value(data, 0, minor)) as int,
                cf,
                limit,
            );
            lemma_walk_past_end(data, (1 + extra_bytes(minor)) as int, cf, limit);
        }
    } else if major == 7 && 20 <= minor <= 27 {
        lemma_walk_past_end(data, (1 + extra_bytes(minor)) as int, cf, limit);
    }
}

/// `n` arrays of one item each, nested in one another, around the integer 0.
pub open spec fn nested_arrays(n: nat) -> Seq<u8> {
    Seq::new(n, |i: int| 0x81u8).push(0x00u8)
}

/// `n` levels of `Items(0)`.
spec fn closed_levels(n: nat) -> Seq<Open> {
    Seq::new(n, |i: int| Open::Items(0))
}

proof fn lemma_closed_levels_done(data: Seq<u8>, pos: int, n: nat, limit: nat)
    requires
        pos >= data.len(),
    ensures
        walk(data, pos, closed_levels(n), limit),
{
    lemma_walk_past_end(data, pos, closed_levels(n), limit);
}

proof fn lemma_nested_from(n: nat, i: nat, limit: nat)
    requires
        i <= n,
        i + 1 <= limit,
    ensures
        walk(nested_arrays(n), i as int, closed_levels(i).push(Open::Items(1)), limit) == (n + 1
            <= limit),
    decreases n - i,
{
    let data = nested_arrays(n);
    let frames = closed_levels(i).push(Open::Items(1));
    let cf = frames.drop_last().push(Open::Items(0));
    assert(frames.drop_last() =~= closed_levels(i));
    assert(cf =~= closed_levels(i + 1));
    assert(data.len() == n + 1);
    if i < n {
        assert(data[i as int] == 0x81u8);
        assert(arg_value(data, i as int, 1) == 1);
        if i + 2 <= limit {
            assert(cf.push(Open::Items(1)) =~= closed_levels(i + 1).push(Open::Items(1)));
            assert(step(data, i as int, frames, limit) == Step::Next(
                (i + 1) as int,
                closed_levels(i + 1).push(Open::Items(1)),
            ));
            lemma_nested_from(n, i + 1, limit);
        } else {
            assert(step(data, i as int, frames, limit) == Step::Done(false));
        }
    } else {
        assert(data[i as int] == 0x00u8);
        assert(step(data, i as int, frames, limit) == Step::Next((i + 1) as int, cf));
        lemma_closed_levels_done(data, (i + 1) as int, i + 1, limit);
    }
}

/// Arrays nested `n` deep around an integer nest `n + 1` levels, the top
/// level counted: they are within `limit` exactly when `n + 1 <= limit`.
pub proof fn law_nested_arrays_depth(n: nat, limit: nat)
    requires
        limit >= 1,
    ensures
        cbor_nesting_within(nested_arrays(n), limit) == (n + 1 <= limit),
{
    assert(closed_levels(0).push(Open::Items(1)) =~= seq![Open::Items(1)]);
    lemma_nested_from(n, 0, limit);
}

/// `n` maps of one pair each, nested in one another as values under the
/// key 0, around the integer 0.
pub open spec fn nested_maps(n: nat) -> Seq<u8> {
    Seq::new(2 * n, |i: int| if i % 2 == 0 { 0xa1u8 } else { 0x00u8 }).push(0x00u8)
}

/// `n` tags (tag 1), each tagging the next, around the integer 0.
pub open spec fn nested_tags(n: nat) -> Seq<u8> {
    Seq::new(2 * n, |i: int| if i % 2 == 0 { 0xd8u8 } else { 0x01u8 }).push(0x00u8)
}

proof fn lemma_nested_maps_from(n: nat, i: nat, limit: nat)
    requires
        i <= n,
        i + 1 <= limit,
    ensures
        walk(nested_maps(n), 2 * (i as int), closed_levels(i).push(Open::Items(1)), limit) == (n + 1
            <= limit),
    decreases n - i,
{
    let data = nested_maps(n);
    let frames = closed_levels(i).push(Open::Items(1));
    let cf = frames.drop_last().push(Open::Items(0));
    assert(frames.drop_last() =~= closed_levels(i));
    assert(cf =~= closed_levels(i + 1));
    assert(data.len() == 2 * n + 1);
    if i < n {
        assert(data[2 * (i as int)] == 0xa1u8);
        assert(data[2 * (i as int) + 1] == 0x00u8);
        assert(arg_value(data, 2 * (i as int), 1) == 1);
        if i + 2 <= limit {
            let f1 = closed_levels(i + 1).push(Open::Items(2));
            assert(cf.push(Open::Items(2)) =~= f1);
            assert(step(data, 2 * (i as int), frames, limit) == Step::Next(2 * (i as int) + 1, f1));
            let f2 = closed_levels(i + 1).push(Open::Items(1));
            assert(f1.drop_last().push(Open::Items(1)) =~= f2);
            assert(f1.drop_last() =~= closed_levels(i + 1));
            assert(step(data, 2 * (i as int) + 1, f1, limit) == Step::Next(2 * (i as int) + 2, f2));
            lemma_nested_maps_from(n, i + 1, limit);
            assert(walk(data, 2 * (i as int) + 1, f1, limit) == walk(data, 2 * (i as int) + 2, f2, limit));
        } else {
            assert(step(data, 2 * (i as int), frames, limit) == Step::Done(false));
        }
    } else {
        assert(data[2 * (i as int)] == 0x00u8);
        assert(step(data, 2 * (i as int), frames, limit) == Step::Next(2 * (i as int) + 1, cf));
        lemma_closed_levels_done(data, 2 * (i as int) + 1, i + 1, limit);
    }
}

/// Maps nested `n` deep (each the value of the one before) around an
/// integer nest `n + 1` levels, the top level counted.
pub proof fn law_nested_maps_depth(n: nat, limit: nat)
    requires
        limit >= 1,
    ensures
        cbor_nesting_within(nested_maps(n), limit) == (n + 1 <= limit),
{
    assert(closed_levels(0).push(Open::Items(1)) =~= seq![Open::Items(1)]);
    lemma_nested_maps_from(n, 0, limit);
}

proof fn lemma_nested_tags_from(n: nat, i: nat, limit: nat)
    requires
        i <= n,
        i + 1 <= limit,
    ensures
        walk(nested_tags(n), 2 * (i as int), closed_levels(i).push(Open::Items(1)), limit) == (n + 1
            <= limit),
    decreases n - i,
{
    let data = nested_tags(n);
    let frames = closed_levels(i).push(Open::Items(1));
    let cf = frames.drop_last().push(Open::Items(0));
    assert(frames.drop_last() =~= closed_levels(i));
    assert(cf =~= closed_levels(i + 1));
    assert(data.len() == 2 * n + 1);
    if i < n {
        assert(data[2 * (i as int)] == 0xd8u8);
        assert(data[2 * (i as int) + 1] == 0x01u8);
        if i + 2 <= limit {
            assert(cf.push(Open::Items(1)) =~= closed_levels(i + 1).push(Open::Items(1)));
            assert(step(data, 2 * (i as int), frames, limit) == Step::Next(
                2 * (i as int) + 2,
                closed_levels(i + 1).push(Open::Items(1)),
            ));
            lemma_nested_tags_from(n, i + 1, limit);
        } else {
            assert(step(data, 2 * (i as int), frames, limit) == Step::Done(false));
        }
    } else {
        assert(data[2 * (i as int)] == 0x00u8);
        assert(step(data, 2 * (i as int), frames, limit) == Step::Next(2 * (i as int) + 1, cf));
        lemma_closed_levels_done(data, 2 * (i as int) + 1, i + 1, limit);
    }
}

/// Tags (other than the link tag 42) nested `n` deep around an integer
/// nest `n + 1` levels, the top level counted: each tag opens a level.
pub proof fn law_nested_tags_depth(n: nat, limit: nat)
    requires
        limit >= 1,
    ensures
        cbor_nesting_within(nested_tags(n), limit) == (n + 1 <= limit),
{
    assert(closed_levels(0).push(Open::Items(1)) =~= seq![Open::Items(1)]);
    lemma_nested_tags_from(n, 0, limit);
}

/// A link (tag 42 on a byte string of up to 255 bytes) is one item that
/// opens no level, whatever its bytes.
pub proof fn law_link_opens_no_level(bytes: Seq<u8>, limit: nat)
    requires
        bytes.len() <= 255,
        limit >= 1,
    ensures
        cbor_nesting_within(seq![0xd8u8, 42u8, 0x58u8, bytes.len() as u8] + bytes, limit),
{
    reveal_with_fuel(walk, 3);
    let data = seq![0xd8u8, 42u8, 0x58u8, bytes.len() as u8] + bytes;
    assert(data[0] == 0xd8u8 && data[1] == 42u8 && data[2] == 0x58u8);
    assert(data[3] == bytes.len() as u8);
    assert(seq![Open::Items(1)].drop_last().push(Open::Items(0)) =~= seq![Open::Items(0)]);
    lemma_walk_past_end(data, 4 + bytes.len() as int, seq![Open::Items(0)], limit);
}

/// The bytes of a string are not items: a byte or text string of up to 23
/// bytes opens no level, whatever its bytes.
pub proof fn law_string_opens_no_level(text: bool, bytes: Seq<u8>, limit: nat)
    requires
        bytes.len() <= 23,
        limit >= 1,
    ensures
        cbor_nesting_within(
            seq![(if text { 0x60int } else { 0x40int } + bytes.len()) as u8] + bytes,
            limit,
        ),
{
    reveal_with_fuel(walk, 3);
    let h: u8 = (if text { 0x60int } else { 0x40int } + bytes.len()) as u8;
    let data = seq![h] + bytes;
    assert(data[0] == h);
    assert(arg_value(data, 0, h as int % 32) == bytes.len());
    assert(seq![Open::Items(1)].drop_last().push(Open::Items(0)) =~= seq![Open::Items(0)]);
    lemma_walk_past_end(data, 1 + bytes.len() as int, seq![Open::Items(0)], limit);
}

} // verus!
