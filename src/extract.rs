use vstd::prelude::*;

verus! {

/// The line terminator.
pub const NL: u8 = 10;

/// Number of line terminators in `s`.
pub open spec fn count_nl(s: Seq<u8>) -> nat
    decreases s.len(),
{
    if s.len() == 0 {
        0
    } else {
        (if s[0] == NL { 1nat } else { 0nat }) + count_nl(s.drop_first())
    }
}

/// Number of lines in `s`: one per terminator, plus one for a final run
/// of bytes that no terminator follows.
pub open spec fn line_count(s: Seq<u8>) -> nat {
    count_nl(s) + if s.len() > 0 && s.last() != NL { 1nat } else { 0nat }
}

/// The first `n` lines of `s`, terminators included.
pub open spec fn take_lines(s: Seq<u8>, n: nat) -> Seq<u8>
    decreases s.len(),
{
    if n == 0 || s.len() == 0 {
        Seq::empty()
    } else if s[0] == NL {
        seq![s[0]] + take_lines(s.drop_first(), (n - 1) as nat)
    } else {
        seq![s[0]] + take_lines(s.drop_first(), n)
    }
}

/// The first `m` bytes of `s`, or all of `s` when it is shorter.
pub open spec fn take_bytes(s: Seq<u8>, m: nat) -> Seq<u8> {
    if s.len() <= m {
        s
    } else {
        s.take(m as int)
    }
}

proof fn lemma_count_nl_concat(a: Seq<u8>, b: Seq<u8>)
    ensures
        count_nl(a + b) == count_nl(a) + count_nl(b),
    decreases a.len(),
{
    if a.len() > 0 {
        assert((a + b).drop_first() =~= a.drop_first() + b);
        lemma_count_nl_concat(a.drop_first(), b);
    } else {
        assert(a + b =~= b);
    }
}

proof fn lemma_count_nl_cons(x: u8, t: Seq<u8>)
    ensures
        count_nl(seq![x] + t) == (if x == NL { 1nat } else { 0nat }) + count_nl(t),
{
    assert((seq![x] + t).drop_first() =~= t);
}

proof fn lemma_take_lines_step(s: Seq<u8>, i: int, n: nat)
    requires
        0 <= i < s.len(),
        n > 0,
    ensures
        take_lines(s.skip(i), n) == seq![s[i]] + take_lines(
            s.skip(i + 1),
            if s[i] == NL { (n - 1) as nat } else { n },
        ),
{
    assert(s.skip(i).drop_first() =~= s.skip(i + 1));
}

/// Length of the prefix of `data` that holds its first `n` lines.
pub fn line_prefix_len(data: &[u8], n: usize) -> (r: usize)
    ensures
        r <= data@.len(),
        data@.take(r as int) == take_lines(data@, n as nat),
        count_nl(take_lines(data@, n as nat)) <= n,
{
    let mut i: usize = 0;
    let mut left: usize = n;
    proof {
        assert(data@.skip(0) =~= data@);
        assert(data@.take(0) =~= Seq::<u8>::empty());
    }
    while i < data.len() && left > 0
        invariant
            i <= data@.len(),
            left <= n,
            take_lines(data@, n as nat) == data@.take(i as int) + take_lines(
                data@.skip(i as int),
                left as nat,
            ),
            count_nl(data@.take(i as int)) + left == n,
        decreases data@.len() - i,
    {
        proof {
            lemma_take_lines_step(data@, i as int, left as nat);
            assert(data@.take(i as int + 1) =~= data@.take(i as int) + seq![data@[i as int]]);
            lemma_count_nl_concat(data@.take(i as int), seq![data@[i as int]]);
            lemma_count_nl_cons(data@[i as int], Seq::empty());
            assert(seq![data@[i as int]] + Seq::<u8>::empty() =~= seq![data@[i as int]]);
        }
        if data[i] == NL {
            left = left - 1;
        }
        i = i + 1;
    }
    proof {
        if i == data@.len() {
            assert(data@.skip(i as int) =~= Seq::<u8>::empty());
        }
        assert(data@.take(i as int) + Seq::<u8>::empty() =~= data@.take(i as int));
    }
    i
}


/// Which prefix is taken, and how much of it is still owed.
#[derive(Clone, Copy, Debug, PartialEq, Eq, Structural)]
pub enum Mode {
    /// Take lines; the count is how many.
    Lines(usize),
    /// Take bytes; the count is how many.
    Bytes(usize),
}

/// The prefix of `s` that `mode` selects.
pub open spec fn take_prefix(mode: Mode, s: Seq<u8>) -> Seq<u8> {
    match mode {
        Mode::Lines(n) => take_lines(s, n as nat),
        Mode::Bytes(m) => take_bytes(s, m as nat),
    }
}

/// What is still owed once the prefix of `s` has been taken.
pub open spec fn mode_after(mode: Mode, s: Seq<u8>) -> Mode {
    match mode {
        Mode::Lines(n) => Mode::Lines((n - count_nl(take_lines(s, n as nat))) as usize),
        Mode::Bytes(m) => Mode::Bytes((m - take_bytes(s, m as nat).len()) as usize),
    }
}

/// Whether nothing more is owed.
pub open spec fn mode_done(mode: Mode) -> bool {
    match mode {
        Mode::Lines(n) => n == 0,
        Mode::Bytes(m) => m == 0,
    }
}

proof fn lemma_take_lines_count(s: Seq<u8>, n: nat)
    ensures
        count_nl(take_lines(s, n)) <= n,
    decreases s.len(),
{
    if n > 0 && s.len() > 0 {
        let k: nat = if s[0] == NL { (n - 1) as nat } else { n };
        lemma_take_lines_count(s.drop_first(), k);
        lemma_count_nl_cons(s[0], take_lines(s.drop_first(), k));
    }
}

proof fn lemma_take_lines_concat(a: Seq<u8>, b: Seq<u8>, n: nat)
    ensures
        take_lines(a + b, n) == take_lines(a, n) + take_lines(
            b,
            (n - count_nl(take_lines(a, n))) as nat,
        ),
    decreases a.len(),
{
    lemma_take_lines_count(a, n);
    if n == 0 {
        assert(Seq::<u8>::empty() + Seq::<u8>::empty() =~= Seq::<u8>::empty());
    } else if a.len() == 0 {
        assert(a + b =~= b);
        assert(Seq::<u8>::empty() + take_lines(b, n) =~= take_lines(b, n));
    } else {
        let k: nat = if a[0] == NL { (n - 1) as nat } else { n };
        assert((a + b).drop_first() =~= a.drop_first() + b);
        assert((a + b)[0] == a[0]);
        lemma_take_lines_concat(a.drop_first(), b, k);
        lemma_take_lines_count(a.drop_first(), k);
        lemma_count_nl_cons(a[0], take_lines(a.drop_first(), k));
        let rest = (n - count_nl(take_lines(a, n))) as nat;
        assert(rest == k - count_nl(take_lines(a.drop_first(), k)));
        assert(seq![a[0]] + (take_lines(a.drop_first(), k) + take_lines(b, rest)) =~= (seq![a[0]]
            + take_lines(a.drop_first(), k)) + take_lines(b, rest));
    }
}

/// Taking a prefix of a stream piece by piece gives the prefix of the whole:
/// the prefix of `a + b` is the prefix of `a`, followed by what is still owed
/// taken from `b`.
pub proof fn lemma_prefix_of_concat(mode: Mode, a: Seq<u8>, b: Seq<u8>)
    ensures
        take_prefix(mode, a + b) == take_prefix(mode, a) + take_prefix(mode_after(mode, a), b),
{
    match mode {
        Mode::Lines(n) => {
            lemma_take_lines_concat(a, b, n as nat);
            lemma_take_lines_count(a, n as nat);
        },
        Mode::Bytes(m) => {
            if a.len() + b.len() <= m {
                assert(a + b =~= a + take_bytes(b, (m - a.len()) as nat));
            } else if a.len() <= m {
                assert((a + b).take(m as int) =~= a + b.take(m - a.len()));
            } else {
                assert((a + b).take(m as int) =~= a.take(m as int));
                assert(a.take(m as int) + Seq::<u8>::empty() =~= a.take(m as int));
                assert(b.take(0) =~= Seq::<u8>::empty());
            }
        },
    }
}

/// Incremental prefix extraction over a stream that arrives in chunks.
pub struct Extractor {
    /// What is still owed.
    pub mode: Mode,
}

impl Extractor {
    /// An extractor that owes the whole prefix `mode` asks for.
    pub fn new(mode: Mode) -> (r: Extractor)
        ensures
            r.mode == mode,
    {
        Extractor { mode }
    }

    /// Whether the prefix is complete, so that no more input need be read.
    pub fn is_done(&self) -> (r: bool)
        ensures
            r == mode_done(self.mode),
    {
        match self.mode {
            Mode::Lines(n) => n == 0,
            Mode::Bytes(m) => m == 0,
        }
    }

    /// Takes the next chunk of the stream and returns how many of its
    /// leading bytes belong to the prefix.
    pub fn feed(&mut self, chunk: &[u8]) -> (k: usize)
        ensures
            k <= chunk@.len(),
            chunk@.take(k as int) == take_prefix(old(self).mode, chunk@),
            final(self).mode == mode_after(old(self).mode, chunk@),
    {
        match self.mode {
            Mode::Lines(n) => {
                let k = line_prefix_len(chunk, n);
                proof {
                    lemma_count_nl_take(chunk@, k as int, n as nat);
                }
                self.mode = Mode::Lines(n - count_nl_exec(chunk, k));
                k
            },
            Mode::Bytes(m) => {
                let k: usize = if chunk.len() <= m { chunk.len() } else { m };
                proof {
                    assert(chunk@.len() <= m ==> chunk@.take(k as int) =~= chunk@);
                }
                self.mode = Mode::Bytes(m - k);
                k
            },
        }
    }

    /// Takes the next chunk of the stream, appends the part of it that
    /// belongs to the prefix to `out`, and returns that part's length.
    pub fn feed_into(&mut self, chunk: &[u8], out: &mut Vec<u8>) -> (k: usize)
        ensures
            k <= chunk@.len(),
            k == take_prefix(old(self).mode, chunk@).len(),
            final(out)@ == old(out)@ + take_prefix(old(self).mode, chunk@),
            final(self).mode == mode_after(old(self).mode, chunk@),
    {
        let k = self.feed(chunk);
        let mut i: usize = 0;
        while i < k
            invariant
                i <= k <= chunk@.len(),
                out@ == old(out)@ + chunk@.take(i as int),
            decreases k - i,
        {
            out.push(chunk[i]);
            i = i + 1;
            proof {
                assert(out@ =~= old(out)@ + chunk@.take(i as int));
            }
        }
        k
    }
}

proof fn lemma_count_nl_take(s: Seq<u8>, k: int, n: nat)
    requires
        0 <= k <= s.len(),
        s.take(k) == take_lines(s, n),
    ensures
        count_nl(s.take(k)) <= n,
{
    lemma_take_lines_count(s, n);
}

/// Number of line terminators among the first `k` bytes of `data`.
fn count_nl_exec(data: &[u8], k: usize) -> (r: usize)
    requires
        k <= data@.len(),
    ensures
        r == count_nl(data@.take(k as int)),
{
    let mut i: usize = 0;
    let mut c: usize = 0;
    proof {
        assert(data@.take(0) =~= Seq::<u8>::empty());
    }
    while i < k
        invariant
            i <= k <= data@.len(),
            c == count_nl(data@.take(i as int)),
            c <= i,
        decreases k - i,
    {
        proof {
            assert(data@.take(i as int + 1) =~= data@.take(i as int) + seq![data@[i as int]]);
            lemma_count_nl_concat(data@.take(i as int), seq![data@[i as int]]);
            lemma_count_nl_cons(data@[i as int], Seq::empty());
            assert(seq![data@[i as int]] + Seq::<u8>::empty() =~= seq![data@[i as int]]);
        }
        if data[i] == NL {
            c = c + 1;
        }
        i = i + 1;
    }
    c
}

/// Appends `b` to `out`.
pub(crate) fn append_bytes(out: &mut Vec<u8>, b: &[u8])
    ensures
        final(out)@ == old(out)@ + b@,
{
    let mut i: usize = 0;
    while i < b.len()
        invariant
            i <= b@.len(),
            out@ == old(out)@ + b@.take(i as int),
        decreases b@.len() - i,
    {
        out.push(b[i]);
        i = i + 1;
        proof {
            assert(out@ =~= old(out)@ + b@.take(i as int));
        }
    }
    proof {
        assert(b@.take(b@.len() as int) =~= b@);
    }
}

/// The prefix of a whole stream held in memory.
pub fn head(mode: Mode, data: &[u8]) -> (r: Vec<u8>)
    ensures
        r@ == take_prefix(mode, data@),
{
    let mut ex = Extractor::new(mode);
    let mut r: Vec<u8> = Vec::new();
    ex.feed_into(data, &mut r);
    proof {
        assert(Seq::<u8>::empty() + take_prefix(mode, data@) =~= take_prefix(mode, data@));
    }
    r
}

proof fn lemma_line_count_cons(x: u8, t: Seq<u8>)
    ensures
        line_count(seq![x] + t) == if x == NL {
            1 + line_count(t)
        } else if t.len() == 0 {
            1
        } else {
            line_count(t)
        },
{
    lemma_count_nl_cons(x, t);
    if t.len() > 0 {
        assert((seq![x] + t).last() == t.last());
    }
}

/// When the stream holds at least `n` lines, the line prefix is a prefix of
/// the stream holding exactly `n` lines, which ends with its terminator
/// unless it is the whole stream.
pub proof fn lemma_take_lines_full(s: Seq<u8>, n: nat)
    requires
        n > 0,
        line_count(s) >= n,
    ensures
        take_lines(s, n).len() <= s.len(),
        s.take(take_lines(s, n).len() as int) == take_lines(s, n),
        line_count(take_lines(s, n)) == n,
        take_lines(s, n) == s || take_lines(s, n).last() == NL,
    decreases s.len(),
{
    let t = s.drop_first();
    assert(s =~= seq![s[0]] + t);
    lemma_line_count_cons(s[0], t);
    if s[0] == NL {
        let k = (n - 1) as nat;
        if k == 0 {
            assert(take_lines(t, 0) =~= Seq::<u8>::empty());
            assert(take_lines(s, n) =~= seq![s[0]]);
            assert(s.take(1) =~= seq![s[0]]);
            lemma_line_count_cons(s[0], Seq::empty());
        } else {
            lemma_take_lines_full(t, k);
            let r = take_lines(t, k);
            lemma_line_count_cons(s[0], r);
            assert(s.take(r.len() + 1int) =~= seq![s[0]] + t.take(r.len() as int));
            assert(r.len() > 0);
            assert((seq![s[0]] + r).last() == r.last());
        }
    } else if t.len() == 0 {
        assert(take_lines(t, n) =~= Seq::<u8>::empty());
        assert(take_lines(s, n) =~= s);
        assert(s.take(s.len() as int) =~= s);
    } else {
        lemma_take_lines_full(t, n);
        let r = take_lines(t, n);
        lemma_line_count_cons(s[0], r);
        assert(s.take(r.len() + 1int) =~= seq![s[0]] + t.take(r.len() as int));
        assert(r.len() > 0);
        assert((seq![s[0]] + r).last() == r.last());
    }
}

/// When the stream holds fewer than `n` lines, the line prefix is the whole
/// stream.
pub proof fn lemma_take_lines_short(s: Seq<u8>, n: nat)
    requires
        line_count(s) < n,
    ensures
        take_lines(s, n) == s,
    decreases s.len(),
{
    if s.len() == 0 {
        assert(take_lines(s, n) =~= s);
    } else {
        let t = s.drop_first();
        assert(s =~= seq![s[0]] + t);
        lemma_line_count_cons(s[0], t);
        if s[0] == NL {
            lemma_take_lines_short(t, (n - 1) as nat);
        } else if t.len() == 0 {
            assert(take_lines(t, n) =~= Seq::<u8>::empty());
        } else {
            lemma_take_lines_short(t, n);
        }
        assert(take_lines(s, n) =~= s);
    }
}

/// When the stream holds at least `m` bytes, the byte prefix is exactly its
/// first `m` bytes.
pub proof fn lemma_take_bytes_full(s: Seq<u8>, m: nat)
    requires
        s.len() >= m,
    ensures
        take_bytes(s, m) == s.take(m as int),
        take_bytes(s, m).len() == m,
{
    if s.len() == m {
        assert(s.take(m as int) =~= s);
    }
}

/// When the stream holds fewer than `m` bytes, the byte prefix is the whole
/// stream.
pub proof fn lemma_take_bytes_short(s: Seq<u8>, m: nat)
    requires
        s.len() < m,
    ensures
        take_bytes(s, m) == s,
{
}

} // verus!
