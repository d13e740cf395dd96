use vstd::prelude::*;
use vstd::string::StringExecFns;
use vstd::string::StringSliceAdditionalSpecFns;
use vstd::utf8::encode_utf8;
use crate::extract::append_bytes;
use crate::extract::NL;

verus! {

/// The byte `=`.
pub const EQ: u8 = 61;
/// The byte `>`.
pub const GT: u8 = 62;
/// The byte `<`.
pub const LT: u8 = 60;
/// The byte of a space.
pub const SP: u8 = 32;

/// What came of reading one source.
pub enum SourceOutcome {
    /// The prefix that was read.
    Content(Vec<u8>),
    /// The source could not be opened or read; the message says why.
    Failed(String),
}

/// Standard output and standard error of a run, in order.
pub struct Rendered {
    /// The bytes for standard output.
    pub out: Vec<u8>,
    /// One line for standard error per source that failed.
    pub errors: Vec<String>,
}

/// The header line `==> id <==` that names a source.
pub open spec fn header_line(id: Seq<u8>) -> Seq<u8> {
    seq![EQ, EQ, GT, SP] + id + seq![SP, LT, EQ, EQ, NL]
}

/// What precedes the content of source `index` of `total`: nothing for a
/// lone source; else its header, after a blank line for all but the first.
pub open spec fn banner_of(id: Seq<u8>, index: nat, total: nat) -> Seq<u8> {
    if total < 2 {
        Seq::empty()
    } else if index == 0 {
        header_line(id)
    } else {
        seq![NL] + header_line(id)
    }
}

/// The standard output contributed by one source.
pub open spec fn piece_of(id: Seq<u8>, index: nat, total: nat, o: SourceOutcome) -> Seq<u8> {
    match o {
        SourceOutcome::Content(c) => banner_of(id, index, total) + c@,
        SourceOutcome::Failed(_) => Seq::empty(),
    }
}

/// The line `id: msg` that reports a failed source.
pub open spec fn error_line(id: Seq<char>, msg: Seq<char>) -> Seq<char> {
    id + seq![':', ' '] + msg
}

/// Standard output after the first `k` sources.
pub open spec fn rendered_out(ids: Seq<String>, outs: Seq<SourceOutcome>, k: nat) -> Seq<u8>
    decreases k,
{
    if k == 0 {
        Seq::empty()
    } else {
        rendered_out(ids, outs, (k - 1) as nat) + piece_of(
            encode_utf8(ids[k - 1]@),
            (k - 1) as nat,
            ids.len(),
            outs[k - 1],
        )
    }
}

/// Error lines after the first `k` sources.
pub open spec fn rendered_errors(ids: Seq<String>, outs: Seq<SourceOutcome>, k: nat) -> Seq<
    Seq<char>,
>
    decreases k,
{
    if k == 0 {
        Seq::empty()
    } else {
        let prev = rendered_errors(ids, outs, (k - 1) as nat);
        match outs[k - 1] {
            SourceOutcome::Failed(m) => prev.push(error_line(ids[k - 1]@, m@)),
            SourceOutcome::Content(_) => prev,
        }
    }
}

/// Appends to `out` what precedes the content of source `index` of `total`.
pub fn push_banner(out: &mut Vec<u8>, id: &str, index: usize, total: usize)
    ensures
        final(out)@ == old(out)@ + banner_of(id.spec_bytes(), index as nat, total as nat),
{
    if total < 2 {
        proof {
            assert(old(out)@ + Seq::<u8>::empty() =~= old(out)@);
        }
        return;
    }
    if index > 0 {
        out.push(NL);
    }
    out.push(EQ);
    out.push(EQ);
    out.push(GT);
    out.push(SP);
    append_bytes(out, id.as_bytes());
    out.push(SP);
    out.push(LT);
    out.push(EQ);
    out.push(EQ);
    out.push(NL);
    proof {
        assert(final(out)@ =~= old(out)@ + banner_of(id.spec_bytes(), index as nat, total as nat));
    }
}

/// The line that reports that source `id` failed with `msg`.
pub fn error_message(id: &str, msg: &str) -> (r: String)
    ensures
        r@ == error_line(id@, msg@),
{
    let mut r = String::from_str(id);
    r.append(": ");
    r.append(msg);
    proof {
        reveal_strlit(": ");
        assert(r@ =~= error_line(id@, msg@));
    }
    r
}

/// Renders source `index` of `total`: its banner and content, or the line
/// that reports its failure.
pub fn render_source(id: &str, index: usize, total: usize, outcome: &SourceOutcome) -> (r:
    Rendered)
    ensures
        r.out@ == piece_of(id.spec_bytes(), index as nat, total as nat, *outcome),
        match *outcome {
            SourceOutcome::Content(_) => r.errors@.len() == 0,
            SourceOutcome::Failed(m) => r.errors@.len() == 1 && r.errors@[0]@ == error_line(
                id@,
                m@,
            ),
        },
{
    let mut out: Vec<u8> = Vec::new();
    let mut errors: Vec<String> = Vec::new();
    match outcome {
        SourceOutcome::Content(c) => {
            push_banner(&mut out, id, index, total);
            append_bytes(&mut out, c.as_slice());
        },
        SourceOutcome::Failed(m) => {
            errors.push(error_message(id, m.as_str()));
        },
    }
    proof {
        assert(out@ =~= piece_of(id.spec_bytes(), index as nat, total as nat, *outcome));
    }
    Rendered { out, errors }
}

/// Renders a whole run: the sources in order, each failure isolated to
/// its own error line.
pub fn compose(ids: &Vec<String>, outcomes: &Vec<SourceOutcome>) -> (r: Rendered)
    requires
        ids@.len() == outcomes@.len(),
    ensures
        r.out@ == rendered_out(ids@, outcomes@, ids@.len()),
        r.errors@.map_values(|e: String| e@) == rendered_errors(ids@, outcomes@, ids@.len()),
{
    let mut out: Vec<u8> = Vec::new();
    let mut errors: Vec<String> = Vec::new();
    let mut i: usize = 0;
    while i < ids.len()
        invariant
            i <= ids@.len() == outcomes@.len(),
            out@ == rendered_out(ids@, outcomes@, i as nat),
            errors@.map_values(|e: String| e@) == rendered_errors(ids@, outcomes@, i as nat),
        decreases ids@.len() - i,
    {
        let one = render_source(ids[i].as_str(), i, ids.len(), &outcomes[i]);
        append_bytes(&mut out, one.out.as_slice());
        let ghost before = errors@;
        match &outcomes[i] {
            SourceOutcome::Failed(m) => {
                let mut e = one.errors;
                let line = e.pop().unwrap();
                errors.push(line);
                proof {
                    assert(errors@.map_values(|e: String| e@) =~= before.map_values(
                        |e: String| e@,
                    ).push(line@));
                }
            },
            SourceOutcome::Content(_) => {},
        }
        i = i + 1;
    }
    Rendered { out, errors }
}

/// With a single source, no header is written: the output is its content
/// alone, or nothing when it failed.
pub proof fn lemma_single_source_no_header(ids: Seq<String>, outs: Seq<SourceOutcome>)
    requires
        ids.len() == 1,
        outs.len() == 1,
    ensures
        rendered_out(ids, outs, 1) == match outs[0] {
            SourceOutcome::Content(c) => c@,
            SourceOutcome::Failed(_) => Seq::<u8>::empty(),
        },
{
    assert(rendered_out(ids, outs, 0) == Seq::<u8>::empty());
    match outs[0] {
        SourceOutcome::Content(c) => {
            assert(Seq::<u8>::empty() + (Seq::<u8>::empty() + c@) =~= c@);
        },
        SourceOutcome::Failed(_) => {
            assert(Seq::<u8>::empty() + Seq::<u8>::empty() =~= Seq::<u8>::empty());
        },
    }
}

/// With two or more sources, each source that was read adds to the output,
/// in source order, a blank line (for all but the first source), the header
/// `==> id <==` with its literal identifier, and then its content.
pub proof fn lemma_headers_in_order(ids: Seq<String>, outs: Seq<SourceOutcome>, i: nat)
    requires
        ids.len() >= 2,
        outs.len() == ids.len(),
        i < ids.len(),
        outs[i as int] is Content,
    ensures
        rendered_out(ids, outs, i + 1) == rendered_out(ids, outs, i) + (if i == 0 {
            Seq::<u8>::empty()
        } else {
            seq![NL]
        }) + header_line(encode_utf8(ids[i as int]@)) + outs[i as int]->Content_0@,
{
    let h = header_line(encode_utf8(ids[i as int]@));
    let c = outs[i as int]->Content_0@;
    let prev = rendered_out(ids, outs, i);
    if i == 0 {
        assert(prev + (h + c) =~= prev + Seq::<u8>::empty() + h + c);
    } else {
        assert(prev + ((seq![NL] + h) + c) =~= prev + seq![NL] + h + c);
    }
}

/// A source that fails adds nothing to the output and one error line,
/// `id: message`; the sources before and after it are rendered as usual.
pub proof fn lemma_failure_isolated(ids: Seq<String>, outs: Seq<SourceOutcome>, i: nat)
    requires
        outs.len() == ids.len(),
        i < ids.len(),
        outs[i as int] is Failed,
    ensures
        rendered_out(ids, outs, i + 1) == rendered_out(ids, outs, i),
        rendered_errors(ids, outs, i + 1) == rendered_errors(ids, outs, i).push(
            error_line(ids[i as int]@, outs[i as int]->Failed_0@),
        ),
{
    assert(rendered_out(ids, outs, i) + Seq::<u8>::empty() =~= rendered_out(ids, outs, i));
}

} // verus!
