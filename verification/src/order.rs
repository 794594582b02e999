//! The total ordering over process records, by key and direction.
//!
//! Numeric keys compare naturally and string keys lexicographically; ties
//! under the chosen key are always broken by ascending pid, so that one
//! cycle's records (whose pids are distinct) have exactly one sorted order.

use crate::record::ProcessHarvest;
use crate::sorting::ProcessSorting;
use vstd::prelude::*;
use vstd::string::StrSliceExecFns;

verus! {

/// Lexicographic "less or equal" over character sequences, by code point:
/// the empty sequence first, then by the first differing character, a
/// prefix before everything it prefixes.
pub open spec fn lex_le(a: Seq<char>, b: Seq<char>) -> bool
    decreases a.len(),
{
    if a.len() == 0 {
        true
    } else if b.len() == 0 {
        false
    } else if (a[0] as u32) < (b[0] as u32) {
        true
    } else if (a[0] as u32) > (b[0] as u32) {
        false
    } else {
        lex_le(a.drop_first(), b.drop_first())
    }
}

pub proof fn lemma_lex_le_total(a: Seq<char>, b: Seq<char>)
    ensures
        lex_le(a, b) || lex_le(b, a),
    decreases a.len(),
{
    if a.len() != 0 && b.len() != 0 && (a[0] as u32) == (b[0] as u32) {
        lemma_lex_le_total(a.drop_first(), b.drop_first());
    }
}

pub proof fn lemma_lex_le_trans(a: Seq<char>, b: Seq<char>, c: Seq<char>)
    requires
        lex_le(a, b),
        lex_le(b, c),
    ensures
        lex_le(a, c),
    decreases a.len(),
{
    if a.len() != 0 && b.len() != 0 && c.len() != 0 && (a[0] as u32) == (b[0] as u32) && (b[0]
        as u32) == (c[0] as u32) {
        lemma_lex_le_trans(a.drop_first(), b.drop_first(), c.drop_first());
    }
}

pub proof fn lemma_lex_le_antisym(a: Seq<char>, b: Seq<char>)
    requires
        lex_le(a, b),
        lex_le(b, a),
    ensures
        a == b,
    decreases a.len(),
{
    if a.len() != 0 && b.len() != 0 {
        lemma_lex_le_antisym(a.drop_first(), b.drop_first());
        assert(a[0] == b[0]) by {
            vstd::utf8::char_u32_cast(a[0], a[0] as u32);
            vstd::utf8::char_u32_cast(b[0], b[0] as u32);
        }
        assert(a =~= seq![a[0]] + a.drop_first());
        assert(b =~= seq![b[0]] + b.drop_first());
    } else {
        assert(a.len() == 0 && b.len() == 0);
        assert(a =~= b);
    }
}

/// Executable lexicographic comparison over string slices.
pub fn str_le(a: &str, b: &str) -> (r: bool)
    ensures
        r == lex_le(a@, b@),
{
    let alen = a.unicode_len();
    let blen = b.unicode_len();
    let mut i: usize = 0;
    proof {
        assert(a@.skip(0) =~= a@);
        assert(b@.skip(0) =~= b@);
    }
    while i < alen && i < blen
        invariant
            alen == a@.len(),
            blen == b@.len(),
            0 <= i <= alen,
            0 <= i <= blen,
            lex_le(a@, b@) == lex_le(a@.skip(i as int), b@.skip(i as int)),
        decreases alen - i,
    {
        let ca = a.get_char(i);
        let cb = b.get_char(i);
        proof {
            assert(a@.skip(i as int)[0] == a@[i as int]);
            assert(b@.skip(i as int)[0] == b@[i as int]);
        }
        if (ca as u32) < (cb as u32) {
            return true;
        }
        if (ca as u32) > (cb as u32) {
            return false;
        }
        proof {
            lemma_lex_skip_step(a@, b@, i as int);
        }
        i = i + 1;
    }
    proof {
        if i == alen {
            assert(a@.skip(i as int).len() == 0);
        } else {
            assert(b@.skip(i as int).len() == 0);
            assert(a@.skip(i as int).len() > 0);
        }
    }
    i == alen
}

proof fn lemma_lex_skip_step(a: Seq<char>, b: Seq<char>, i: int)
    requires
        0 <= i < a.len(),
        0 <= i < b.len(),
        a[i] == b[i],
    ensures
        lex_le(a.skip(i), b.skip(i)) == lex_le(a.skip(i + 1), b.skip(i + 1)),
{
    assert(a.skip(i)[0] == a[i]);
    assert(b.skip(i)[0] == b[i]);
    assert(a.skip(i).drop_first() =~= a.skip(i + 1));
    assert(b.skip(i).drop_first() =~= b.skip(i + 1));
}

/// Ordering over optional user ids: an absent id before every present one,
/// present ids by value.
pub open spec fn opt_u32_le(a: Option<u32>, b: Option<u32>) -> bool {
    match (a, b) {
        (Option::None, _) => true,
        (Option::Some(_), Option::None) => false,
        (Option::Some(x), Option::Some(y)) => x <= y,
    }
}

/// The natural "less or equal" of each key's field: numeric fields compare
/// naturally, string fields lexicographically. The Count key orders no pair
/// apart (grouping counts live outside single records), so under it records
/// fall back to the pid tie-break alone.
pub open spec fn key_le(key: ProcessSorting, a: ProcessHarvest, b: ProcessHarvest) -> bool {
    match key {
        ProcessSorting::CpuPercent => a.cpu_usage_centi_percent <= b.cpu_usage_centi_percent,
        ProcessSorting::MemPercent => a.mem_usage_centi_percent <= b.mem_usage_centi_percent,
        ProcessSorting::Mem => a.mem_usage_bytes <= b.mem_usage_bytes,
        ProcessSorting::Pid => a.pid <= b.pid,
        ProcessSorting::ProcessName => lex_le(a.name@, b.name@),
        ProcessSorting::Command => lex_le(a.command@, b.command@),
        ProcessSorting::ReadPerSecond => a.read_bytes_per_sec <= b.read_bytes_per_sec,
        ProcessSorting::WritePerSecond => a.write_bytes_per_sec <= b.write_bytes_per_sec,
        ProcessSorting::TotalRead => a.total_read_bytes <= b.total_read_bytes,
        ProcessSorting::TotalWrite => a.total_write_bytes <= b.total_write_bytes,
        ProcessSorting::State => lex_le(a.process_state@, b.process_state@),
        ProcessSorting::User => opt_u32_le(a.uid, b.uid),
        ProcessSorting::Count => true,
    }
}

/// Both ways under the key: the two records' key fields rank equal.
pub open spec fn key_eq(key: ProcessSorting, a: ProcessHarvest, b: ProcessHarvest) -> bool {
    key_le(key, a, b) && key_le(key, b, a)
}

/// The comparator the sort obeys: by the key in the chosen direction, ties
/// under the key broken by ascending pid whatever the direction.
pub open spec fn record_le(
    key: ProcessSorting,
    descending: bool,
    a: ProcessHarvest,
    b: ProcessHarvest,
) -> bool {
    if key_eq(key, a, b) {
        a.pid <= b.pid
    } else if descending {
        key_le(key, b, a)
    } else {
        key_le(key, a, b)
    }
}

/// The comparator as a relation, for stating sortedness.
pub open spec fn record_le_fn(key: ProcessSorting, descending: bool) -> spec_fn(
    ProcessHarvest,
    ProcessHarvest,
) -> bool {
    |a: ProcessHarvest, b: ProcessHarvest| record_le(key, descending, a, b)
}

pub proof fn lemma_key_le_total(key: ProcessSorting, a: ProcessHarvest, b: ProcessHarvest)
    ensures
        key_le(key, a, b) || key_le(key, b, a),
{
    match key {
        ProcessSorting::ProcessName => lemma_lex_le_total(a.name@, b.name@),
        ProcessSorting::Command => lemma_lex_le_total(a.command@, b.command@),
        ProcessSorting::State => lemma_lex_le_total(a.process_state@, b.process_state@),
        _ => (),
    }
}

pub proof fn lemma_key_le_trans(
    key: ProcessSorting,
    a: ProcessHarvest,
    b: ProcessHarvest,
    c: ProcessHarvest,
)
    ensures
        key_le(key, a, b) && key_le(key, b, c) ==> key_le(key, a, c),
{
    match key {
        ProcessSorting::ProcessName => {
            if lex_le(a.name@, b.name@) && lex_le(b.name@, c.name@) {
                lemma_lex_le_trans(a.name@, b.name@, c.name@);
            }
        },
        ProcessSorting::Command => {
            if lex_le(a.command@, b.command@) && lex_le(b.command@, c.command@) {
                lemma_lex_le_trans(a.command@, b.command@, c.command@);
            }
        },
        ProcessSorting::State => {
            if lex_le(a.process_state@, b.process_state@) && lex_le(
                b.process_state@,
                c.process_state@,
            ) {
                lemma_lex_le_trans(a.process_state@, b.process_state@, c.process_state@);
            }
        },
        _ => (),
    }
}

/// The comparator is reflexive.
pub proof fn lemma_record_le_refl(key: ProcessSorting, descending: bool, a: ProcessHarvest)
    ensures
        record_le(key, descending, a, a),
{
    lemma_key_le_total(key, a, a);
}

/// The comparator is total: any two records are ordered one way or the
/// other.
pub proof fn lemma_record_le_total(
    key: ProcessSorting,
    descending: bool,
    a: ProcessHarvest,
    b: ProcessHarvest,
)
    ensures
        record_le(key, descending, a, b) || record_le(key, descending, b, a),
{
    lemma_key_le_total(key, a, b);
}

/// The comparator is transitive.
pub proof fn lemma_record_le_trans(
    key: ProcessSorting,
    descending: bool,
    a: ProcessHarvest,
    b: ProcessHarvest,
    c: ProcessHarvest,
)
    requires
        record_le(key, descending, a, b),
        record_le(key, descending, b, c),
    ensures
        record_le(key, descending, a, c),
{
    lemma_key_le_trans(key, a, b, c);
    lemma_key_le_trans(key, c, b, a);
    lemma_key_le_trans(key, b, a, c);
    lemma_key_le_trans(key, c, a, b);
    lemma_key_le_trans(key, a, c, b);
    lemma_key_le_trans(key, b, c, a);
}

/// Records ordered both ways agree on the key's field and on the pid: with
/// distinct pids the comparator never ranks two records equal.
pub proof fn lemma_record_le_antisym(
    key: ProcessSorting,
    descending: bool,
    a: ProcessHarvest,
    b: ProcessHarvest,
)
    requires
        record_le(key, descending, a, b),
        record_le(key, descending, b, a),
    ensures
        a.pid == b.pid,
        key_eq(key, a, b),
{
}

/// Executable twin of [`key_le`].
pub fn key_le_exec(key: &ProcessSorting, a: &ProcessHarvest, b: &ProcessHarvest) -> (r: bool)
    ensures
        r == key_le(*key, *a, *b),
{
    match key {
        ProcessSorting::CpuPercent => a.cpu_usage_centi_percent <= b.cpu_usage_centi_percent,
        ProcessSorting::MemPercent => a.mem_usage_centi_percent <= b.mem_usage_centi_percent,
        ProcessSorting::Mem => a.mem_usage_bytes <= b.mem_usage_bytes,
        ProcessSorting::Pid => a.pid <= b.pid,
        ProcessSorting::ProcessName => str_le(a.name.as_str(), b.name.as_str()),
        ProcessSorting::Command => str_le(a.command.as_str(), b.command.as_str()),
        ProcessSorting::ReadPerSecond => a.read_bytes_per_sec <= b.read_bytes_per_sec,
        ProcessSorting::WritePerSecond => a.write_bytes_per_sec <= b.write_bytes_per_sec,
        ProcessSorting::TotalRead => a.total_read_bytes <= b.total_read_bytes,
        ProcessSorting::TotalWrite => a.total_write_bytes <= b.total_write_bytes,
        ProcessSorting::State => str_le(a.process_state.as_str(), b.process_state.as_str()),
        ProcessSorting::User => match (a.uid, b.uid) {
            (Option::None, _) => true,
            (Option::Some(_), Option::None) => false,
            (Option::Some(x), Option::Some(y)) => x <= y,
        },
        ProcessSorting::Count => true,
    }
}

/// Executable twin of [`record_le`].
pub fn record_le_exec(
    key: &ProcessSorting,
    descending: bool,
    a: &ProcessHarvest,
    b: &ProcessHarvest,
) -> (r: bool)
    ensures
        r == record_le(*key, descending, *a, *b),
{
    let ab = key_le_exec(key, a, b);
    let ba = key_le_exec(key, b, a);
    if ab && ba {
        a.pid <= b.pid
    } else if descending {
        ba
    } else {
        ab
    }
}

} // verus!
