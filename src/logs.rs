use vstd::prelude::*;

verus! {

/// Splits a stream of bytes into lines. Each call takes the next chunk and
/// returns the lines to write: every complete line but the last one seen,
/// which is held back with any unfinished text until more arrives.
pub struct LineBuffer {
    buffer: Vec<u8>,
}

/// The start of the piece that is held back: just after the last `\n`
/// before the final byte, or the start.
pub open spec fn held_from(data: Seq<u8>, i: int) -> int
    decreases i,
{
    if i <= 0 {
        0
    } else if data[i - 1] == 10u8 {
        i
    } else {
        held_from(data, i - 1)
    }
}

pub open spec fn held_start(data: Seq<u8>) -> int {
    if data.len() == 0 {
        0
    } else {
        held_from(data, data.len() - 1)
    }
}

/// A line as written: it ends with its single `\n`.
pub open spec fn is_line(l: Seq<u8>) -> bool {
    l.len() > 0 && l.last() == 10u8 && forall|i: int| 0 <= i < l.len() - 1 ==> l[i] != 10u8
}

proof fn lemma_held_bounds(data: Seq<u8>, i: int)
    requires
        0 <= i <= data.len(),
    ensures
        0 <= held_from(data, i) <= i,
        held_from(data, i) > 0 ==> data[held_from(data, i) - 1] == 10u8,
        forall|j: int| held_from(data, i) <= j < i ==> data[j] != 10u8,
    decreases i,
{
    if i > 0 && data[i - 1] != 10u8 {
        lemma_held_bounds(data, i - 1);
    }
}

fn joined(data: &Vec<u8>, chunk: &[u8]) -> (r: Vec<u8>)
    ensures
        r@ == data@ + chunk@,
{
    let mut out: Vec<u8> = Vec::new();
    let mut i: usize = 0;
    while i < data.len()
        invariant
            0 <= i <= data@.len(),
            out@ =~= data@.subrange(0, i as int),
        decreases data@.len() - i,
    {
        out.push(data[i]);
        i = i + 1;
    }
    let mut j: usize = 0;
    while j < chunk.len()
        invariant
            0 <= j <= chunk@.len(),
            out@ =~= data@ + chunk@.subrange(0, j as int),
        decreases chunk@.len() - j,
    {
        out.push(chunk[j]);
        j = j + 1;
    }
    assert(chunk@.subrange(0, chunk@.len() as int) =~= chunk@);
    out
}

fn hold_start(data: &Vec<u8>) -> (c: usize)
    ensures
        c as int == held_start(data@),
        c <= data@.len(),
        c == 0 || data@[c - 1] == 10u8,
{
    let n = data.len();
    if n == 0 {
        return 0;
    }
    let mut c: usize = n - 1;
    while c > 0 && data[c - 1] != 10u8
        invariant
            n == data@.len(),
            0 <= c <= n - 1,
            held_from(data@, (n - 1) as int) == held_from(data@, c as int),
        decreases c,
    {
        c = c - 1;
    }
    proof {
        lemma_held_bounds(data@, n - 1);
    }
    c
}

fn lines_before(data: &Vec<u8>, cut: usize) -> (r: Vec<Vec<u8>>)
    requires
        cut <= data@.len(),
        cut == 0 || data@[cut - 1] == 10u8,
    ensures
        r@.map_values(|l: Vec<u8>| l@).flatten() == data@.subrange(0, cut as int),
        forall|k: int| 0 <= k < r@.len() ==> is_line(#[trigger] r@[k]@),
{
    let ghost d = data@;
    let mut lines: Vec<Vec<u8>> = Vec::new();
    let mut current: Vec<u8> = Vec::new();
    let mut i: usize = 0;
    assert(lines@.map_values(|l: Vec<u8>| l@).flatten() =~= Seq::<u8>::empty());
    while i < cut
        invariant
            d == data@,
            cut == 0 || d[cut - 1] == 10u8,
            cut <= d.len(),
            0 <= i <= cut,
            lines@.map_values(|l: Vec<u8>| l@).flatten() + current@ =~= d.subrange(0, i as int),
            forall|k: int| 0 <= k < lines@.len() ==> is_line(#[trigger] lines@[k]@),
            forall|k: int| 0 <= k < current@.len() ==> current@[k] != 10u8,
        decreases cut - i,
    {
        let b = data[i];
        let ghost before = lines@.map_values(|l: Vec<u8>| l@);
        let ghost cur = current@;
        current.push(b);
        assert(current@ =~= cur.push(b));
        assert(d.subrange(0, i + 1) =~= d.subrange(0, i as int).push(b));
        if b == 10u8 {
            let line = current;
            let ghost lv = line@;
            current = Vec::new();
            lines.push(line);
            proof {
                assert(lines@.map_values(|l: Vec<u8>| l@) =~= before.push(lv));
                before.lemma_flatten_push(lv);
                assert(is_line(lv));
                assert(lines@.map_values(|l: Vec<u8>| l@).flatten() + current@ =~= before.flatten() + cur.push(b));
            }
        } else {
            assert(lines@.map_values(|l: Vec<u8>| l@).flatten() + current@ =~= before.flatten() + cur.push(b));
        }
        i = i + 1;
    }
    assert(current@.len() == 0) by {
        if current@.len() > 0 {
            let f = lines@.map_values(|l: Vec<u8>| l@).flatten();
            assert((f + current@)[cut - 1] == current@[current@.len() - 1]);
        }
    }
    assert(lines@.map_values(|l: Vec<u8>| l@).flatten() =~= lines@.map_values(|l: Vec<u8>| l@).flatten() + current@);
    lines
}

fn bytes_from(data: &Vec<u8>, cut: usize) -> (r: Vec<u8>)
    requires
        cut <= data@.len(),
    ensures
        r@ == data@.subrange(cut as int, data@.len() as int),
{
    let mut rest: Vec<u8> = Vec::new();
    let mut k: usize = cut;
    while k < data.len()
        invariant
            cut <= k <= data@.len(),
            rest@ =~= data@.subrange(cut as int, k as int),
        decreases data@.len() - k,
    {
        rest.push(data[k]);
        k = k + 1;
    }
    rest
}

impl LineBuffer {
    pub fn new() -> (r: LineBuffer)
        ensures
            r.held().len() == 0,
    {
        LineBuffer { buffer: Vec::new() }
    }

    /// The bytes held back.
    pub closed spec fn held(&self) -> Seq<u8> {
        self.buffer@
    }

    /// Whether a line is passed on; every line is.
    pub fn should_write(&self, line: &[u8]) -> (r: bool)
        ensures
            r,
    {
        true
    }

    /// Takes the next chunk. The returned lines, followed by what is now
    /// held back, are exactly what was held back followed by the chunk.
    pub fn push(&mut self, chunk: &[u8]) -> (r: Vec<Vec<u8>>)
        ensures
            ({
                let data = old(self).held() + chunk@;
                &&& r@.map_values(|l: Vec<u8>| l@).flatten() == data.subrange(0, held_start(data))
                &&& forall|k: int| 0 <= k < r@.len() ==> is_line(#[trigger] r@[k]@)
                &&& final(self).held() == data.subrange(held_start(data), data.len() as int)
            }),
    {
        let data = joined(&self.buffer, chunk);
        let cut = hold_start(&data);
        let lines = lines_before(&data, cut);
        self.buffer = bytes_from(&data, cut);
        lines
    }
}

} // verus!
