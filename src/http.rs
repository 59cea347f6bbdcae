//! The small part of HTTP/1.1 that the WAV stream adapter speaks: the target
//! of a request line, and the framing of chunked transfer encoding.
use vstd::prelude::*;

verus! {

/// The first index in `[from, limit)` that holds `b`, or `limit`.
pub open spec fn find_byte(s: Seq<u8>, from: int, limit: int, b: u8) -> int
    decreases limit - from,
{
    if from >= limit {
        limit
    } else if s[from] == b {
        from
    } else {
        find_byte(s, from + 1, limit, b)
    }
}

/// Where the request line ends: before the first `\n`, and before a `\r`
/// that precedes it.
pub open spec fn line_end(req: Seq<u8>) -> int {
    let nl = find_byte(req, 0, req.len() as int, 10u8);
    if nl > 0 && req[nl - 1] == 13u8 {
        nl - 1
    } else {
        nl
    }
}

/// The bounds of the second space-separated field of the request line (the
/// request target), if the line has a space.
pub open spec fn target_of(req: Seq<u8>) -> Option<(int, int)> {
    let end = line_end(req);
    let sp1 = find_byte(req, 0, end, 32u8);
    if sp1 >= end {
        None
    } else {
        Some((sp1 + 1, find_byte(req, sp1 + 1, end, 32u8)))
    }
}

proof fn lemma_find_byte_bounds(s: Seq<u8>, from: int, limit: int, b: u8)
    requires
        0 <= from <= limit <= s.len(),
    ensures
        from <= find_byte(s, from, limit, b) <= limit,
        find_byte(s, from, limit, b) < limit ==> s[find_byte(s, from, limit, b)] == b,
    decreases limit - from,
{
    if from < limit && s[from] != b {
        lemma_find_byte_bounds(s, from + 1, limit, b);
    }
}

fn find_byte_exec(s: &Vec<u8>, from: usize, limit: usize, b: u8) -> (r: usize)
    requires
        from <= limit <= s@.len(),
    ensures
        r == find_byte(s@, from as int, limit as int, b),
{
    let mut i = from;
    while i < limit
        invariant
            from <= i <= limit <= s@.len(),
            find_byte(s@, i as int, limit as int, b) == find_byte(s@, from as int, limit as int, b),
        decreases limit - i,
    {
        if s[i] == b {
            return i;
        }
        i += 1;
    }
    i
}

/// The request target of the request in `req`, as bounds into it.
pub fn request_target(req: &Vec<u8>) -> (r: Option<(usize, usize)>)
    ensures
        match target_of(req@) {
            Some((a, b)) => r == Some((a as usize, b as usize)) && 0 <= a <= b <= req@.len(),
            None => r is None,
        },
{
    let len = req.len();
    let nl = find_byte_exec(req, 0, len, 10u8);
    proof {
        lemma_find_byte_bounds(req@, 0, len as int, 10u8);
    }
    let end = if nl > 0 && req[nl - 1] == 13u8 {
        nl - 1
    } else {
        nl
    };
    let sp1 = find_byte_exec(req, 0, end, 32u8);
    proof {
        lemma_find_byte_bounds(req@, 0, end as int, 32u8);
    }
    if sp1 >= end {
        return None;
    }
    let sp2 = find_byte_exec(req, sp1 + 1, end, 32u8);
    proof {
        lemma_find_byte_bounds(req@, sp1 + 1, end as int, 32u8);
    }
    Some((sp1 + 1, sp2))
}

/// The lower-case hexadecimal digit of `d`.
pub open spec fn hex_digit(d: nat) -> u8 {
    if d < 10 {
        (48 + d) as u8
    } else {
        (87 + d) as u8
    }
}

/// The lower-case hexadecimal digits of `n`, most significant first.
pub open spec fn hex_digits(n: nat) -> Seq<u8>
    decreases n,
{
    if n < 16 {
        seq![hex_digit(n)]
    } else {
        hex_digits(n / 16) + seq![hex_digit(n % 16)]
    }
}

fn push_hex(out: &mut Vec<u8>, n: u64)
    ensures
        final(out)@ == old(out)@ + hex_digits(n as nat),
    decreases n,
{
    if n >= 16 {
        push_hex(out, n / 16);
    }
    let d = (n % 16) as u8;
    out.push(if d < 10 {
        48 + d
    } else {
        87 + d
    });
    proof {
        assert(final(out)@ =~= old(out)@ + hex_digits(n as nat));
    }
}

/// The line that opens a chunk of `len` bytes: its size in hexadecimal,
/// then CRLF.
pub fn chunk_header(len: u64) -> (r: Vec<u8>)
    ensures
        r@ == hex_digits(len as nat) + seq![13u8, 10u8],
{
    let mut out: Vec<u8> = Vec::new();
    push_hex(&mut out, len);
    out.push(13u8);
    out.push(10u8);
    proof {
        assert(out@ =~= hex_digits(len as nat) + seq![13u8, 10u8]);
    }
    out
}

/// One chunk of chunked transfer encoding: header, `data`, CRLF.
pub fn chunk_frame(data: &Vec<u8>) -> (r: Vec<u8>)
    ensures
        r@ == hex_digits(data@.len()) + seq![13u8, 10u8] + data@ + seq![13u8, 10u8],
{
    let mut out = chunk_header(data.len() as u64);
    let mut i: usize = 0;
    let ghost head = out@;
    while i < data.len()
        invariant
            i <= data@.len(),
            out@ == head + data@.subrange(0, i as int),
        decreases data@.len() - i,
    {
        out.push(data[i]);
        i += 1;
        proof {
            assert(out@ =~= head + data@.subrange(0, i as int));
        }
    }
    out.push(13u8);
    out.push(10u8);
    proof {
        assert(data@.subrange(0, data@.len() as int) =~= data@);
        assert(out@ =~= hex_digits(data@.len()) + seq![13u8, 10u8] + data@ + seq![13u8, 10u8]);
    }
    out
}

} // verus!
