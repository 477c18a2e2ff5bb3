//! The reply of the C entry point `sys_resolver_candidates(path, out_buf,
//! out_buf_len)`: the candidate count (0 = nothing to offer, -1 = buffer
//! too small) and the NUL-terminated candidates to copy out. It never
//! touches the file system.
use vstd::prelude::*;
use vstd::utf8::valid_utf8;
use crate::bytes::{index_of, NUL};
use crate::host::decode_text;
use crate::remap::{candidates, spec_candidates, Roots};

verus! {

/// The answer to a caller of the C entry point.
pub struct CandidatesReply {
    /// The number of candidates, 0 when there is nothing to offer, -1 when
    /// the caller's buffer cannot take them.
    pub code: i32,
    /// What to copy into the caller's buffer (empty unless `code > 0`).
    pub bytes: Vec<u8>,
}

/// The record that the candidate `c` contributes to a reply: its bytes and
/// a NUL when it is UTF-8 text, nothing otherwise.
pub open spec fn record_of(c: Seq<u8>) -> Seq<u8> {
    if valid_utf8(c) {
        c.push(NUL)
    } else {
        seq![]
    }
}

/// The records of all of `cs`, in order.
pub open spec fn spec_blob(cs: Seq<Seq<u8>>) -> Seq<u8>
    decreases cs.len(),
{
    if cs.len() == 0 {
        seq![]
    } else {
        record_of(cs[0]) + spec_blob(cs.drop_first())
    }
}

/// Those of `cs` that are UTF-8 text, in order.
pub open spec fn text_only(cs: Seq<Seq<u8>>) -> Seq<Seq<u8>>
    decreases cs.len(),
{
    if cs.len() == 0 {
        seq![]
    } else if valid_utf8(cs[0]) {
        seq![cs[0]] + text_only(cs.drop_first())
    } else {
        text_only(cs.drop_first())
    }
}

/// The NUL-terminated records of `b`, read from the front; an unterminated
/// tail counts as one more record.
pub open spec fn split_records(b: Seq<u8>) -> Seq<Seq<u8>>
    decreases b.len(),
{
    if b.len() == 0 {
        seq![]
    } else {
        let k: int = index_of(b, NUL);
        if k >= b.len() || k < 0 {
            seq![b]
        } else {
            seq![b.subrange(0, k)] + split_records(b.subrange(k + 1, b.len() as int))
        }
    }
}

/// The candidates that the C entry point offers for `path` (`None`: a null
/// pointer).
pub open spec fn reply_candidates(path: Option<Seq<u8>>, roots: &Roots) -> Seq<Seq<u8>> {
    match path {
        Some(p) => spec_candidates(p, roots),
        None => seq![],
    }
}

/// Appending one candidate appends its record.
proof fn lemma_blob_push(cs: Seq<Seq<u8>>, c: Seq<u8>)
    ensures
        spec_blob(cs.push(c)) == spec_blob(cs) + record_of(c),
    decreases cs.len(),
{
    if cs.len() == 0 {
        assert(cs.push(c).drop_first() =~= Seq::<Seq<u8>>::empty());
        assert(cs.push(c)[0] == c);
        assert(spec_blob(cs.push(c).drop_first()) == Seq::<u8>::empty());
        assert(spec_blob(cs.push(c)) =~= record_of(c));
    } else {
        assert(cs.push(c).drop_first() =~= cs.drop_first().push(c));
        lemma_blob_push(cs.drop_first(), c);
        assert(spec_blob(cs.push(c)) =~= spec_blob(cs) + record_of(c));
    }
}

/// The first NUL of `c` followed by a NUL and `t` is the one after `c`,
/// when `c` holds none.
proof fn lemma_nul_after_record(c: Seq<u8>, t: Seq<u8>)
    requires
        !c.contains(NUL),
    ensures
        index_of(c.push(NUL) + t, NUL) == c.len(),
    decreases c.len(),
{
    if c.len() == 0 {
        assert((c.push(NUL) + t)[0] == NUL);
    } else {
        assert(c[0] != NUL) by {
            if c[0] == NUL {
                assert(c.contains(NUL));
            }
        }
        assert((c.push(NUL) + t).drop_first() =~= c.drop_first().push(NUL) + t);
        assert(!c.drop_first().contains(NUL)) by {
            if c.drop_first().contains(NUL) {
                let j = choose|j: int| 0 <= j < c.drop_first().len() && c.drop_first()[j] == NUL;
                assert(c[j + 1] == NUL);
            }
        }
        lemma_nul_after_record(c.drop_first(), t);
    }
}

/// Reading the records of a reply back gives the candidates that went into
/// it: those that are UTF-8 text, in order, when none holds a NUL.
pub proof fn lemma_reply_round_trip(cs: Seq<Seq<u8>>)
    requires
        forall|i: int| 0 <= i < cs.len() ==> !(#[trigger] cs[i]).contains(NUL),
    ensures
        split_records(spec_blob(cs)) == text_only(cs),
    decreases cs.len(),
{
    if cs.len() > 0 {
        let c = cs[0];
        let t = spec_blob(cs.drop_first());
        assert forall|i: int| 0 <= i < cs.drop_first().len() implies !(
        #[trigger] cs.drop_first()[i]).contains(NUL) by {
            assert(cs.drop_first()[i] == cs[i + 1]);
        }
        lemma_reply_round_trip(cs.drop_first());
        if valid_utf8(c) {
            let b = c.push(NUL) + t;
            assert(!c.contains(NUL));
            lemma_nul_after_record(c, t);
            assert(b.subrange(0, c.len() as int) =~= c);
            assert(b.subrange(c.len() + 1int, b.len() as int) =~= t);
            assert(split_records(b) =~= seq![c] + split_records(t));
        } else {
            assert(spec_blob(cs) =~= t);
        }
    }
}

/// The reply to a caller that passed `path` (`None`: a null pointer) and a
/// buffer of `out_buf_len` bytes (`out_buf_is_null`: a null pointer), for
/// the system whose roots are `roots`.
pub fn candidates_reply(
    path: Option<&[u8]>,
    roots: &Roots,
    out_buf_len: usize,
    out_buf_is_null: bool,
) -> (r: CandidatesReply)
    ensures
        ({
            let cs = reply_candidates(
                match path {
                    Some(p) => Some(p@),
                    None => None,
                },
                roots,
            );
            let blob = spec_blob(cs);
            &&& (cs.len() == 0 || blob.len() == 0) ==> r.code == 0 && r.bytes@.len() == 0
            &&& (cs.len() > 0 && blob.len() > 0 && (blob.len() > out_buf_len || out_buf_is_null))
                ==> r.code == -1 && r.bytes@.len() == 0
            &&& (cs.len() > 0 && blob.len() > 0 && blob.len() <= out_buf_len && !out_buf_is_null)
                ==> r.code == cs.len() && r.bytes@ == blob
        }),
{
    let p = match path {
        Some(p) => p,
        None => {
            return CandidatesReply { code: 0, bytes: Vec::new() };
        },
    };
    let cands = candidates(p, roots);
    if cands.len() == 0 {
        return CandidatesReply { code: 0, bytes: Vec::new() };
    }
    let mut blob: Vec<u8> = Vec::new();
    let mut i: usize = 0;
    assert(cands.deep_view().take(0) =~= Seq::<Seq<u8>>::empty());
    while i < cands.len()
        invariant
            i <= cands.len(),
            blob@ == spec_blob(cands.deep_view().take(i as int)),
        decreases cands.len() - i,
    {
        proof {
            assert(cands.deep_view()[i as int] == cands@[i as int]@);
            assert(cands.deep_view().take(i + 1) =~= cands.deep_view().take(i as int).push(
                cands@[i as int]@,
            ));
            lemma_blob_push(cands.deep_view().take(i as int), cands@[i as int]@);
        }
        if decode_text(&cands[i]).is_some() {
            let ghost before = blob@;
            let mut j: usize = 0;
            while j < cands[i].len()
                invariant
                    i < cands.len(),
                    j <= cands@[i as int]@.len(),
                    blob@ == before + cands@[i as int]@.subrange(0, j as int),
                decreases cands@[i as int]@.len() - j,
            {
                blob.push(cands[i][j]);
                assert(cands@[i as int]@.subrange(0, j + 1) =~= cands@[i as int]@.subrange(
                    0,
                    j as int,
                ).push(cands@[i as int]@[j as int]));
                j = j + 1;
            }
            blob.push(NUL);
            assert(cands@[i as int]@.subrange(0, cands@[i as int]@.len() as int) =~= cands@[i as int]@);
        } else {
            assert(record_of(cands@[i as int]@) =~= Seq::<u8>::empty());
            assert(blob@ =~= blob@ + record_of(cands@[i as int]@));
        }
        i = i + 1;
    }
    assert(cands.deep_view().take(cands.len() as int) =~= cands.deep_view());
    if blob.len() == 0 {
        return CandidatesReply { code: 0, bytes: Vec::new() };
    }
    if blob.len() > out_buf_len || out_buf_is_null {
        return CandidatesReply { code: -1, bytes: Vec::new() };
    }
    CandidatesReply { code: cands.len() as i32, bytes: blob }
}

} // verus!
