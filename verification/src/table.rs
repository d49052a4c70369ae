//! Parsing a process-table listing: the byte output of an OS
//! process-listing facility, one line per process, each line carrying a pid
//! and a parent pid as whitespace-separated decimal fields. Malformed lines
//! are ignored; well-formed ones each contribute one `(pid, parent)` pair.

use vstd::prelude::*;

verus! {

/// Field-separating whitespace inside a line.
pub open spec fn is_ws(b: u8) -> bool {
    b == 32 || b == 9 || b == 13
}

pub open spec fn is_digit(b: u8) -> bool {
    48 <= b <= 57
}

/// The value of a run of decimal digits.
pub open spec fn dec_val(s: Seq<u8>) -> int
    decreases s.len(),
{
    if s.len() == 0 {
        0
    } else {
        dec_val(s.drop_last()) * 10 + (s.last() - 48)
    }
}

pub open spec fn all_digits(s: Seq<u8>) -> bool {
    forall|k: int| 0 <= k < s.len() ==> is_digit(#[trigger] s[k])
}

/// A field parses as a pid exactly when it is a nonempty run of digits
/// whose value fits the platform's pid representation.
pub open spec fn parse_pid_field(s: Seq<u8>) -> Option<i32> {
    if s.len() > 0 && all_digits(s) && dec_val(s) <= i32::MAX {
        Option::Some(dec_val(s) as i32)
    } else {
        Option::None
    }
}

/// The first position at or after `i` holding a non-whitespace byte.
pub open spec fn skip_ws(line: Seq<u8>, i: int) -> int
    decreases line.len() - i,
{
    if i < 0 || i >= line.len() {
        line.len() as int
    } else if is_ws(line[i]) {
        skip_ws(line, i + 1)
    } else {
        i
    }
}

/// The first position at or after `i` holding a whitespace byte.
pub open spec fn end_field(line: Seq<u8>, i: int) -> int
    decreases line.len() - i,
{
    if i < 0 || i >= line.len() {
        line.len() as int
    } else if is_ws(line[i]) {
        i
    } else {
        end_field(line, i + 1)
    }
}

/// What one line contributes: its first two whitespace-separated fields as
/// a `(pid, parent pid)` pair, or nothing when either is missing or not a
/// well-formed pid.
pub open spec fn parse_line(line: Seq<u8>) -> Option<(i32, i32)> {
    let a = skip_ws(line, 0);
    let b = end_field(line, a);
    let c = skip_ws(line, b);
    let d = end_field(line, c);
    match (parse_pid_field(line.subrange(a, b)), parse_pid_field(line.subrange(c, d))) {
        (Option::Some(pid), Option::Some(parent)) => Option::Some((pid, parent)),
        _ => Option::None,
    }
}

/// The first position at or after `i` holding a line feed.
pub open spec fn next_newline(bytes: Seq<u8>, i: int) -> int
    decreases bytes.len() - i,
{
    if i < 0 || i >= bytes.len() {
        bytes.len() as int
    } else if bytes[i] == 10 {
        i
    } else {
        next_newline(bytes, i + 1)
    }
}

proof fn lemma_next_newline_bounds(bytes: Seq<u8>, i: int)
    requires
        0 <= i <= bytes.len(),
    ensures
        i <= next_newline(bytes, i) <= bytes.len(),
    decreases bytes.len() - i,
{
    if i < bytes.len() && bytes[i] != 10 {
        lemma_next_newline_bounds(bytes, i + 1);
    }
}

/// The pairs contributed by the lines from position `i` on, in listing
/// order.
pub open spec fn parse_from(bytes: Seq<u8>, i: int) -> Seq<(i32, i32)>
    decreases bytes.len() + 1 - i,
    via parse_from_decreases
{
    if i < 0 || i >= bytes.len() {
        Seq::empty()
    } else {
        let j = next_newline(bytes, i);
        let rest = parse_from(bytes, j + 1);
        match parse_line(bytes.subrange(i, j)) {
            Option::Some(entry) => seq![entry] + rest,
            Option::None => rest,
        }
    }
}

#[via_fn]
proof fn parse_from_decreases(bytes: Seq<u8>, i: int) {
    if 0 <= i < bytes.len() {
        lemma_next_newline_bounds(bytes, i);
    }
}

/// The whole listing's contribution, from its first byte.
pub open spec fn parse_table_spec(bytes: Seq<u8>) -> Seq<(i32, i32)> {
    parse_from(bytes, 0)
}

/// A run of digits has a nonnegative decimal value.
proof fn lemma_dec_val_nonneg(s: Seq<u8>)
    requires
        all_digits(s),
    ensures
        dec_val(s) >= 0,
    decreases s.len(),
{
    if s.len() > 0 {
        assert(all_digits(s.drop_last())) by {
            assert(forall|k: int| 0 <= k < s.drop_last().len()
                ==> #[trigger] s.drop_last()[k] == s[k]);
        }
        lemma_dec_val_nonneg(s.drop_last());
    }
}

fn skip_ws_exec(line: &Vec<u8>, from: usize) -> (r: usize)
    requires
        from <= line@.len(),
    ensures
        from <= r <= line@.len(),
        r == skip_ws(line@, from as int),
{
    let n = line.len();
    let mut k = from;
    while k < n && (line[k] == 32 || line[k] == 9 || line[k] == 13)
        invariant
            from <= k <= n,
            n == line@.len(),
            skip_ws(line@, from as int) == skip_ws(line@, k as int),
        decreases n - k,
    {
        k += 1;
    }
    k
}

fn end_field_exec(line: &Vec<u8>, from: usize) -> (r: usize)
    requires
        from <= line@.len(),
    ensures
        from <= r <= line@.len(),
        r == end_field(line@, from as int),
{
    let n = line.len();
    let mut k = from;
    while k < n && !(line[k] == 32 || line[k] == 9 || line[k] == 13)
        invariant
            from <= k <= n,
            n == line@.len(),
            end_field(line@, from as int) == end_field(line@, k as int),
        decreases n - k,
    {
        k += 1;
    }
    k
}

fn parse_field_exec(line: &Vec<u8>, a: usize, b: usize) -> (r: Option<i32>)
    requires
        a <= b <= line@.len(),
    ensures
        r == parse_pid_field(line@.subrange(a as int, b as int)),
{
    if a == b {
        return None;
    }
    let mut val: u64 = 0;
    let mut too_big: bool = false;
    let mut k = a;
    while k < b
        invariant
            a <= k <= b <= line@.len(),
            all_digits(line@.subrange(a as int, k as int)),
            too_big == (dec_val(line@.subrange(a as int, k as int)) > i32::MAX),
            !too_big ==> val == dec_val(line@.subrange(a as int, k as int)),
        decreases b - k,
    {
        let byte = line[k];
        if byte < 48 || byte > 57 {
            proof {
                assert(line@.subrange(a as int, b as int)[k - a] == line@[k as int]);
                assert(!all_digits(line@.subrange(a as int, b as int)));
            }
            return None;
        }
        proof {
            let prefix = line@.subrange(a as int, k as int);
            let next = line@.subrange(a as int, (k + 1) as int);
            assert(next.drop_last() =~= prefix);
            assert(next.last() == line@[k as int]);
            assert(dec_val(next) == dec_val(prefix) * 10 + (line@[k as int] - 48));
            assert(all_digits(next)) by {
                assert(forall|t: int| 0 <= t < prefix.len() ==> next[t] == prefix[t]);
            }
            lemma_dec_val_nonneg(prefix);
        }
        if too_big {
            // the value already exceeds the pid range; keep checking digits
        } else {
            let widened: u64 = val * 10 + ((byte - 48) as u64);
            if widened > 2147483647u64 {
                too_big = true;
            } else {
                val = widened;
            }
        }
        k += 1;
    }
    proof {
        assert(line@.subrange(a as int, b as int).len() > 0);
    }
    if too_big {
        None
    } else {
        proof {
            lemma_dec_val_nonneg(line@.subrange(a as int, b as int));
        }
        Some(val as i32)
    }
}

fn parse_line_exec(line: &Vec<u8>) -> (r: Option<(i32, i32)>)
    ensures
        r == parse_line(line@),
{
    let a = skip_ws_exec(line, 0);
    let b = end_field_exec(line, a);
    let c = skip_ws_exec(line, b);
    let d = end_field_exec(line, c);
    let pid = parse_field_exec(line, a, b);
    let parent = parse_field_exec(line, c, d);
    match (pid, parent) {
        (Some(p), Some(q)) => Some((p, q)),
        _ => None,
    }
}

/// Parses a process-table listing into its `(pid, parent pid)` pairs, in
/// listing order: each line whose first two whitespace-separated fields are
/// well-formed pids contributes one pair, and every other line is ignored.
pub fn parse_process_table(bytes: &Vec<u8>) -> (table: Vec<(i32, i32)>)
    ensures
        table@ == parse_table_spec(bytes@),
{
    let n = bytes.len();
    let mut out: Vec<(i32, i32)> = Vec::new();
    let mut i: usize = 0;
    while i < n
        invariant
            n == bytes@.len(),
            0 <= i,
            out@ + parse_from(bytes@, i as int) == parse_from(bytes@, 0),
        decreases n - i,
    {
        let mut j: usize = i;
        while j < n && bytes[j] != 10
            invariant
                i <= j <= n,
                n == bytes@.len(),
                next_newline(bytes@, i as int) == next_newline(bytes@, j as int),
            decreases n - j,
        {
            j += 1;
        }
        proof {
            assert(j == next_newline(bytes@, i as int));
        }

        let mut line: Vec<u8> = Vec::new();
        let mut k = i;
        while k < j
            invariant
                i <= k <= j <= n,
                n == bytes@.len(),
                line@ == bytes@.subrange(i as int, k as int),
            decreases j - k,
        {
            line.push(bytes[k]);
            proof {
                assert(line@ =~= bytes@.subrange(i as int, (k + 1) as int));
            }
            k += 1;
        }
        proof {
            assert(line@ == bytes@.subrange(i as int, j as int));
        }

        let entry = parse_line_exec(&line);
        let ghost before = out@;
        match entry {
            Some(e) => {
                out.push(e);
            },
            None => {},
        }
        proof {
            match entry {
                Option::Some(e) => {
                    assert(parse_from(bytes@, i as int)
                        == seq![e] + parse_from(bytes@, j + 1 as int));
                    assert(out@ + parse_from(bytes@, j + 1 as int)
                        =~= before + parse_from(bytes@, i as int));
                },
                Option::None => {
                    assert(parse_from(bytes@, i as int) == parse_from(bytes@, j + 1 as int));
                },
            }
        }
        if j < n {
            i = j + 1;
        } else {
            proof {
                assert(parse_from(bytes@, j + 1 as int) == Seq::<(i32, i32)>::empty());
                assert(parse_from(bytes@, n as int) == Seq::<(i32, i32)>::empty());
            }
            i = n;
        }
    }
    proof {
        assert(parse_from(bytes@, i as int) == Seq::<(i32, i32)>::empty());
        assert(out@ + Seq::<(i32, i32)>::empty() =~= out@);
    }
    out
}

} // verus!
