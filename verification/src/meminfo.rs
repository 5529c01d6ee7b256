//! Memory counters parsed from the kernel's key/value text.
//!
//! The raw text is one `Name: value [unit]` line per counter. Values with a
//! unit field are kibibytes and are scaled to bytes; the used amounts are
//! derived from the reported totals. Any line whose value does not parse,
//! any missing counter, and any inconsistent pair of counters (more used
//! than present) is a malformed-source error.

use vstd::prelude::*;

use crate::error::SampleError;
use crate::parse::{
    copy_range, digits_val, fields_of, lines_of, parse_ok, parse_u64, split_fields, split_lines,
    views_of,
};

verus! {

/// One parsed line of the memory counter text: a key and its value in bytes.
#[derive(Debug)]
pub struct MemEntry {
    /// The key, the first field of the line, colon included.
    pub name: Vec<u8>,
    /// The value in bytes; zero for a line without a value field.
    pub value: u64,
}

/// Memory usage of the machine, all amounts in bytes.
#[derive(Clone, Copy, Debug, PartialEq, Eq, Structural)]
pub struct MemInfo {
    /// Total installed memory.
    pub total: u64,
    /// Memory no one uses.
    pub free: u64,
    /// Memory holding cached file data.
    pub cached: u64,
    /// Memory in real use: total less free and cached.
    pub used: u64,
    /// Total swap space.
    pub swap_total: u64,
    /// Swap space not in use.
    pub swap_free: u64,
    /// Swap space in use: total less free.
    pub swap_used: u64,
}

/// The key of a line: its first field, or empty for a blank line.
pub open spec fn line_name(l: Seq<u8>) -> Seq<u8> {
    if fields_of(l).len() >= 1 {
        fields_of(l)[0]
    } else {
        Seq::empty()
    }
}

/// A line's value parses: nothing to parse on a key-only line; otherwise the
/// second field must be a number, and scaling it from kibibytes to bytes
/// must not overflow when a unit field follows.
pub open spec fn line_value_ok(l: Seq<u8>) -> bool {
    let fs = fields_of(l);
    fs.len() < 2 || (parse_ok(fs[1]) && (fs.len() >= 3 ==> digits_val(fs[1]) * 1024 <= u64::MAX))
}

/// The value of a line in bytes: the second field, scaled from kibibytes
/// when a unit field follows; zero when there is no value field.
pub open spec fn line_value(l: Seq<u8>) -> nat {
    let fs = fields_of(l);
    if fs.len() < 2 {
        0
    } else if fs.len() >= 3 {
        digits_val(fs[1]) * 1024
    } else {
        digits_val(fs[1])
    }
}

/// Every line's value parses.
pub open spec fn mem_lines_ok(ls: Seq<Seq<u8>>) -> bool {
    forall|k: int| #![trigger ls[k]] 0 <= k < ls.len() ==> line_value_ok(ls[k])
}

/// The value stored under `name`; of several lines with the same key the
/// last wins, as the last insertion into a table would.
pub open spec fn mem_lookup(ls: Seq<Seq<u8>>, name: Seq<u8>) -> Option<nat>
    decreases ls.len(),
{
    if ls.len() == 0 {
        None::<nat>
    } else if line_name(ls.last()) == name {
        Some(line_value(ls.last()))
    } else {
        mem_lookup(ls.drop_last(), name)
    }
}

/// The bytes of the key `MemTotal:`.
pub open spec fn key_mem_total() -> Seq<u8> {
    seq![77u8, 101u8, 109u8, 84u8, 111u8, 116u8, 97u8, 108u8, 58u8]
}

/// The bytes of the key `MemFree:`.
pub open spec fn key_mem_free() -> Seq<u8> {
    seq![77u8, 101u8, 109u8, 70u8, 114u8, 101u8, 101u8, 58u8]
}

/// The bytes of the key `Cached:`.
pub open spec fn key_cached() -> Seq<u8> {
    seq![67u8, 97u8, 99u8, 104u8, 101u8, 100u8, 58u8]
}

/// The bytes of the key `SwapTotal:`.
pub open spec fn key_swap_total() -> Seq<u8> {
    seq![83u8, 119u8, 97u8, 112u8, 84u8, 111u8, 116u8, 97u8, 108u8, 58u8]
}

/// The bytes of the key `SwapFree:`.
pub open spec fn key_swap_free() -> Seq<u8> {
    seq![83u8, 119u8, 97u8, 112u8, 70u8, 114u8, 101u8, 101u8, 58u8]
}

/// The raw memory text has the expected shape: every value parses, the five
/// needed counters are present, and the derived amounts do not underflow
/// (free plus cached within total, swap free within swap total).
pub open spec fn mem_ok(raw: Seq<u8>) -> bool {
    let ls = lines_of(raw);
    mem_lines_ok(ls) && mem_lookup(ls, key_mem_total()) is Some && mem_lookup(
        ls,
        key_mem_free(),
    ) is Some && mem_lookup(ls, key_cached()) is Some && mem_lookup(ls, key_swap_total()) is Some
        && mem_lookup(ls, key_swap_free()) is Some && mem_lookup(ls, key_mem_free()).unwrap()
        + mem_lookup(ls, key_cached()).unwrap() <= mem_lookup(ls, key_mem_total()).unwrap()
        && mem_lookup(ls, key_swap_free()).unwrap() <= mem_lookup(ls, key_swap_total()).unwrap()
}

/// Whether `name` is the key `MemTotal:`.
fn name_is_mem_total(name: &Vec<u8>) -> (r: bool)
    ensures
        r == (name@ == key_mem_total()),
{
    let r = name.len() == 9 && name[0] == 77 && name[1] == 101 && name[2] == 109 && name[3] == 84
        && name[4] == 111 && name[5] == 116 && name[6] == 97 && name[7] == 108 && name[8] == 58;
    proof {
        if r {
            assert(name@ =~= key_mem_total());
        }
    }
    r
}

/// Whether `name` is the key `MemFree:`.
fn name_is_mem_free(name: &Vec<u8>) -> (r: bool)
    ensures
        r == (name@ == key_mem_free()),
{
    let r = name.len() == 8 && name[0] == 77 && name[1] == 101 && name[2] == 109 && name[3] == 70
        && name[4] == 114 && name[5] == 101 && name[6] == 101 && name[7] == 58;
    proof {
        if r {
            assert(name@ =~= key_mem_free());
        }
    }
    r
}

/// Whether `name` is the key `Cached:`.
fn name_is_cached(name: &Vec<u8>) -> (r: bool)
    ensures
        r == (name@ == key_cached()),
{
    let r = name.len() == 7 && name[0] == 67 && name[1] == 97 && name[2] == 99 && name[3] == 104
        && name[4] == 101 && name[5] == 100 && name[6] == 58;
    proof {
        if r {
            assert(name@ =~= key_cached());
        }
    }
    r
}

/// Whether `name` is the key `SwapTotal:`.
fn name_is_swap_total(name: &Vec<u8>) -> (r: bool)
    ensures
        r == (name@ == key_swap_total()),
{
    let r = name.len() == 10 && name[0] == 83 && name[1] == 119 && name[2] == 97 && name[3] == 112
        && name[4] == 84 && name[5] == 111 && name[6] == 116 && name[7] == 97 && name[8] == 108
        && name[9] == 58;
    proof {
        if r {
            assert(name@ =~= key_swap_total());
        }
    }
    r
}

/// Whether `name` is the key `SwapFree:`.
fn name_is_swap_free(name: &Vec<u8>) -> (r: bool)
    ensures
        r == (name@ == key_swap_free()),
{
    let r = name.len() == 9 && name[0] == 83 && name[1] == 119 && name[2] == 97 && name[3] == 112
        && name[4] == 70 && name[5] == 114 && name[6] == 101 && name[7] == 101 && name[8] == 58;
    proof {
        if r {
            assert(name@ =~= key_swap_free());
        }
    }
    r
}

impl MemInfo {
    /// The empty record: every amount zero.
    pub fn new() -> (r: MemInfo)
        ensures
            r == (MemInfo {
                total: 0u64,
                free: 0u64,
                cached: 0u64,
                used: 0u64,
                swap_total: 0u64,
                swap_free: 0u64,
                swap_used: 0u64,
            }),
    {
        MemInfo { total: 0, free: 0, cached: 0, used: 0, swap_total: 0, swap_free: 0, swap_used: 0 }
    }

    /// Parse the raw memory counter text into its key/value entries, one per
    /// line, in order, values already scaled to bytes.
    pub fn read_mem(raw: &[u8]) -> (r: Result<Vec<MemEntry>, SampleError>)
        ensures
            r is Ok <==> mem_lines_ok(lines_of(raw@)),
            r matches Ok(es) ==> {
                &&& es@.len() == lines_of(raw@).len()
                &&& forall|k: int|
                    0 <= k < es@.len() ==> (#[trigger] es@[k]).name@ == line_name(
                        lines_of(raw@)[k],
                    ) && es@[k].value == line_value(lines_of(raw@)[k])
            },
            r is Err ==> r == Err::<Vec<MemEntry>, SampleError>(SampleError::MalformedSource),
    {
        let lines = split_lines(raw);
        let ghost ls = lines_of(raw@);
        proof {
            assert(views_of(lines@) == ls);
        }
        let mut entries: Vec<MemEntry> = Vec::new();
        let mut i: usize = 0;
        while i < lines.len()
            invariant
                i <= lines@.len(),
                ls == lines_of(raw@),
                views_of(lines@) == ls,
                ls.len() == lines@.len(),
                entries@.len() == i,
                forall|k: int|
                    0 <= k < i ==> (#[trigger] entries@[k]).name@ == line_name(ls[k])
                        && entries@[k].value == line_value(ls[k]),
                forall|k: int| #![trigger ls[k]] 0 <= k < i ==> line_value_ok(ls[k]),
            decreases lines@.len() - i,
        {
            let line = &lines[i];
            proof {
                assert(line@ == ls[i as int]);
            }
            let fields = split_fields(line.as_slice());
            let ghost fs = fields_of(ls[i as int]);
            proof {
                assert(views_of(fields@) == fs);
                assert(fields@.len() == fs.len());
            }
            let name: Vec<u8>;
            if fields.len() >= 1 {
                let first = &fields[0];
                name = copy_range(first.as_slice(), 0, first.len());
                proof {
                    assert(name@ =~= fs[0]);
                }
            } else {
                name = Vec::new();
                proof {
                    assert(name@ =~= Seq::<u8>::empty());
                }
            }
            let mut value: u64 = 0;
            if fields.len() >= 2 {
                proof {
                    assert(fields@[1]@ == fs[1]);
                }
                value = match parse_u64(&fields[1]) {
                    Some(v) => v,
                    None => {
                        proof {
                            assert(!line_value_ok(ls[i as int]));
                            assert(!mem_lines_ok(ls));
                        }
                        return Err(SampleError::MalformedSource);
                    },
                };
                if fields.len() >= 3 {
                    if value > u64::MAX / 1024 {
                        proof {
                            assert(u64::MAX as int == 1024 * (u64::MAX as int / 1024) + (
                            u64::MAX as int % 1024));
                            assert(value * 1024 > u64::MAX);
                            assert(!line_value_ok(ls[i as int]));
                            assert(!mem_lines_ok(ls));
                        }
                        return Err(SampleError::MalformedSource);
                    }
                    proof {
                        assert(u64::MAX as int == 1024 * (u64::MAX as int / 1024) + (u64::MAX as int
                            % 1024));
                        assert(value * 1024 <= u64::MAX);
                    }
                    value = value * 1024;
                }
            }
            entries.push(MemEntry { name, value });
            i += 1;
        }
        proof {
            assert(ls.take(ls.len() as int) =~= ls);
        }
        Ok(entries)
    }

    /// Rebuild this record from the raw memory counter text.
    ///
    /// The five counters `MemTotal:`, `MemFree:`, `Cached:`, `SwapTotal:`
    /// and `SwapFree:` must be present with parseable values; `used` and
    /// `swap_used` are derived from them. Anything else is a
    /// malformed-source error, and the record is then left unchanged.
    pub fn update(&mut self, raw: &[u8]) -> (r: Result<(), SampleError>)
        ensures
            r is Ok <==> mem_ok(raw@),
            mem_ok(raw@) ==> {
                let ls = lines_of(raw@);
                &&& final(self).total == mem_lookup(ls, key_mem_total()).unwrap()
                &&& final(self).free == mem_lookup(ls, key_mem_free()).unwrap()
                &&& final(self).cached == mem_lookup(ls, key_cached()).unwrap()
                &&& final(self).used == mem_lookup(ls, key_mem_total()).unwrap() - (mem_lookup(
                    ls,
                    key_mem_free(),
                ).unwrap() + mem_lookup(ls, key_cached()).unwrap())
                &&& final(self).swap_total == mem_lookup(ls, key_swap_total()).unwrap()
                &&& final(self).swap_free == mem_lookup(ls, key_swap_free()).unwrap()
                &&& final(self).swap_used == mem_lookup(ls, key_swap_total()).unwrap() - mem_lookup(
                    ls,
                    key_swap_free(),
                ).unwrap()
            },
            !mem_ok(raw@) ==> r == Err::<(), SampleError>(SampleError::MalformedSource)
                && *final(self) == *old(self),
    {
        let ghost ls = lines_of(raw@);
        let entries = match Self::read_mem(raw) {
            Ok(es) => es,
            Err(_) => {
                proof {
                    assert(!mem_ok(raw@));
                }
                return Err(SampleError::MalformedSource);
            },
        };
        let mut total: u64 = 0;
        let mut have_total: bool = false;
        let mut free: u64 = 0;
        let mut have_free: bool = false;
        let mut cached: u64 = 0;
        let mut have_cached: bool = false;
        let mut swap_total: u64 = 0;
        let mut have_swap_total: bool = false;
        let mut swap_free: u64 = 0;
        let mut have_swap_free: bool = false;
        let mut i: usize = 0;
        while i < entries.len()
            invariant
                i <= entries@.len(),
                ls == lines_of(raw@),
                entries@.len() == ls.len(),
                forall|k: int|
                    0 <= k < entries@.len() ==> (#[trigger] entries@[k]).name@ == line_name(ls[k])
                        && entries@[k].value == line_value(ls[k]),
                have_total ==> mem_lookup(ls.take(i as int), key_mem_total()) == Some(
                    total as nat,
                ),
                !have_total ==> mem_lookup(ls.take(i as int), key_mem_total()) is None,
                have_free ==> mem_lookup(ls.take(i as int), key_mem_free()) == Some(free as nat),
                !have_free ==> mem_lookup(ls.take(i as int), key_mem_free()) is None,
                have_cached ==> mem_lookup(ls.take(i as int), key_cached()) == Some(cached as nat),
                !have_cached ==> mem_lookup(ls.take(i as int), key_cached()) is None,
                have_swap_total ==> mem_lookup(ls.take(i as int), key_swap_total()) == Some(
                    swap_total as nat,
                ),
                !have_swap_total ==> mem_lookup(ls.take(i as int), key_swap_total()) is None,
                have_swap_free ==> mem_lookup(ls.take(i as int), key_swap_free()) == Some(
                    swap_free as nat,
                ),
                !have_swap_free ==> mem_lookup(ls.take(i as int), key_swap_free()) is None,
            decreases entries@.len() - i,
        {
            let e = &entries[i];
            proof {
                assert(ls.take(i as int + 1).drop_last() =~= ls.take(i as int));
                assert(ls.take(i as int + 1).last() == ls[i as int]);
                assert(e.name@ == line_name(ls[i as int]));
                assert(e.value == line_value(ls[i as int]));
            }
            if name_is_mem_total(&e.name) {
                total = e.value;
                have_total = true;
            } else if name_is_mem_free(&e.name) {
                free = e.value;
                have_free = true;
            } else if name_is_cached(&e.name) {
                cached = e.value;
                have_cached = true;
            } else if name_is_swap_total(&e.name) {
                swap_total = e.value;
                have_swap_total = true;
            } else if name_is_swap_free(&e.name) {
                swap_free = e.value;
                have_swap_free = true;
            }
            i += 1;
        }
        proof {
            assert(ls.take(ls.len() as int) =~= ls);
        }
        if !have_total || !have_free || !have_cached || !have_swap_total || !have_swap_free {
            return Err(SampleError::MalformedSource);
        }
        if cached > u64::MAX - free {
            return Err(SampleError::MalformedSource);
        }
        let free_cached = free + cached;
        if free_cached > total {
            return Err(SampleError::MalformedSource);
        }
        if swap_free > swap_total {
            return Err(SampleError::MalformedSource);
        }
        self.total = total;
        self.free = free;
        self.cached = cached;
        self.used = total - free_cached;
        self.swap_total = swap_total;
        self.swap_free = swap_free;
        self.swap_used = swap_total - swap_free;
        Ok(())
    }
}

} // verus!
