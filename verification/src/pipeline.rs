use vstd::prelude::*;
use crate::image_error::MyImageError;
use crate::imagehash::ImageHashAV;

verus! {

/// The successful fingerprints among a batch of per-file outcomes, in
/// arrival order.
pub open spec fn oks(s: Seq<Result<ImageHashAV, MyImageError>>) -> Seq<ImageHashAV>
    decreases s.len(),
{
    if s.len() == 0 {
        Seq::empty()
    } else {
        let rest = oks(s.drop_last());
        match s.last() {
            Ok(h) => rest.push(h),
            Err(_) => rest,
        }
    }
}

/// The per-file failures among a batch of outcomes, in arrival order.
pub open spec fn errs(s: Seq<Result<ImageHashAV, MyImageError>>) -> Seq<MyImageError>
    decreases s.len(),
{
    if s.len() == 0 {
        Seq::empty()
    } else {
        let rest = errs(s.drop_last());
        match s.last() {
            Ok(_) => rest,
            Err(e) => rest.push(e),
        }
    }
}

/// Fault isolation: every outcome lands on exactly one side, so a batch
/// with one failure among `n` outcomes yields `n - 1` fingerprints and
/// one reported error, and none is lost.
pub proof fn lemma_every_outcome_counted(s: Seq<Result<ImageHashAV, MyImageError>>)
    ensures
        oks(s).len() + errs(s).len() == s.len(),
    decreases s.len(),
{
    if s.len() > 0 {
        lemma_every_outcome_counted(s.drop_last());
    }
}

/// Drain the per-file outcomes of an extraction run into the working set
/// and the error list: successes in arrival order on one side, failures
/// in arrival order on the other. A failure never aborts the run; it
/// only removes its file from the working set. The caller prints the
/// error list after collection completes, so error text does not
/// interleave with a live progress display.
#[verifier::loop_isolation(false)]
pub fn collate_results(results: Vec<Result<ImageHashAV, MyImageError>>) -> (r: (
    Vec<ImageHashAV>,
    Vec<MyImageError>,
))
    ensures
        r.0@ == oks(results@),
        r.1@ == errs(results@),
{
    let ghost s0 = results@;
    let mut rest = results;
    let mut image_hash_results: Vec<ImageHashAV> = Vec::new();
    let mut error_list: Vec<MyImageError> = Vec::new();
    let ghost mut k: int = 0;
    proof {
        assert(oks(s0.subrange(0, 0)) =~= Seq::<ImageHashAV>::empty());
        assert(errs(s0.subrange(0, 0)) =~= Seq::<MyImageError>::empty());
    }
    while rest.len() > 0
        invariant
            0 <= k <= s0.len(),
            rest@ == s0.subrange(k, s0.len() as int),
            image_hash_results@ == oks(s0.subrange(0, k)),
            error_list@ == errs(s0.subrange(0, k)),
        decreases rest@.len(),
    {
        let t_result = rest.remove(0);
        proof {
            assert(t_result == s0[k]);
            assert(rest@ =~= s0.subrange(k + 1, s0.len() as int));
            let pre = s0.subrange(0, k);
            let ext = s0.subrange(0, k + 1);
            assert(ext.drop_last() =~= pre);
            assert(ext.last() == s0[k]);
        }
        match t_result {
            Ok(img_result) => {
                image_hash_results.push(img_result);
            },
            Err(e) => {
                error_list.push(e);
            },
        }
        proof {
            k = k + 1;
        }
    }
    proof {
        assert(s0.subrange(0, s0.len() as int) =~= s0);
    }
    (image_hash_results, error_list)
}

} // verus!
