//! The compute phase: pairing every remote entry with every local entry,
//! and collecting one aggregated flag per remote entry.
//!
//! The homomorphic engine that evaluates an encrypted equality or an
//! encrypted OR is an external collaborator: the caller performs those
//! two operations on the opaque ciphertext records and feeds the results
//! back.  Everything that decides *what* is compared, *in what order*,
//! and *how many* results a bundle must hold is decided and verified
//! here, so a missing comparison or a misplaced index cannot arise from
//! the driving loop.

use vstd::prelude::*;

use crate::bundle;
use crate::bundle::PublicBundle;
use crate::envelope;
use crate::errors::Error;

verus! {

/// Left OR-fold of a row of booleans: the model of the Aggregator.
pub open spec fn fold_or(s: Seq<bool>) -> bool
    decreases s.len(),
{
    if s.len() == 0 {
        false
    } else {
        fold_or(s.drop_last()) || s.last()
    }
}

/// Law: OR-reduction equals the existential disjunction of the row, so
/// any reduction order (left fold, tree, or any partition) yields the
/// same value: true exactly when some entry of the row is true.
pub proof fn lemma_fold_or_is_any(s: Seq<bool>)
    ensures
        fold_or(s) == exists|i: int| 0 <= i < s.len() && s[i],
    decreases s.len(),
{
    if s.len() > 0 {
        lemma_fold_or_is_any(s.drop_last());
        if s.last() {
            assert(s[s.len() - 1]);
        } else if exists|i: int| 0 <= i < s.len() && s[i] {
            let i = choose|i: int| 0 <= i < s.len() && s[i];
            if i < s.len() - 1 {
                assert(s.drop_last()[i]);
            }
        }
    }
}

/// The exhaustive comparison schedule: every remote index paired with
/// every local index, row-major.  Fails with `EmptyInputError` exactly
/// when either side is empty.
pub fn comparison_pairs(n_remote: usize, n_local: usize) -> (r: Result<Vec<(usize, usize)>, Error>)
    requires
        n_remote * n_local <= usize::MAX,
    ensures
        match r {
            Ok(ps) => n_remote > 0 && n_local > 0 && ps@.len() == n_remote * n_local && forall|
                k: int,
            |
                0 <= k < ps@.len() ==> #[trigger] ps@[k] == (((k / n_local as int) as usize, (k % n_local as int) as usize)),
            Err(e) => e == Error::EmptyInputError && (n_remote == 0 || n_local == 0),
        },
{
    if n_remote == 0 || n_local == 0 {
        return Err(Error::EmptyInputError);
    }
    let mut pairs: Vec<(usize, usize)> = Vec::new();
    let mut i: usize = 0;
    while i < n_remote
        invariant
            i <= n_remote,
            0 < n_local,
            n_remote * n_local <= usize::MAX,
            pairs@.len() == i * n_local,
            forall|k: int|
                0 <= k < pairs@.len() ==> #[trigger] pairs@[k] == (((k / n_local as int) as usize, (k % n_local as int) as usize)),
        decreases n_remote - i,
    {
        let mut j: usize = 0;
        proof {
            assert((i + 1) * n_local <= n_remote * n_local) by (nonlinear_arith)
                requires
                    i < n_remote,
                    0 < n_local,
            ;
        }
        while j < n_local
            invariant
                j <= n_local,
                i < n_remote,
                0 < n_local,
                n_remote * n_local <= usize::MAX,
                (i + 1) * n_local <= n_remote * n_local,
                pairs@.len() == i * n_local + j,
                forall|k: int|
                    0 <= k < pairs@.len() ==> #[trigger] pairs@[k] == (((k / n_local as int) as usize, (k % n_local as int) as usize)),
            decreases n_local - j,
        {
            proof {
                assert(i * n_local + j < (i + 1) * n_local) by (nonlinear_arith)
                    requires
                        j < n_local,
                        0 <= i,
                ;
                vstd::arithmetic::div_mod::lemma_fundamental_div_mod_converse_div(
                    i * n_local + j,
                    n_local as int,
                    i as int,
                    j as int,
                );
                vstd::arithmetic::div_mod::lemma_fundamental_div_mod_converse_mod(
                    i * n_local + j,
                    n_local as int,
                    i as int,
                    j as int,
                );
            }
            pairs.push((i, j));
            j = j + 1;
        }
        proof {
            assert((i + 1) * n_local == i * n_local + n_local) by (nonlinear_arith);
        }
        i = i + 1;
    }
    Ok(pairs)
}

/// A running compute phase: remote entry count, local entry count, and
/// the aggregated flags collected so far, in remote-entry order.
#[derive(Debug)]
pub struct ComputeSession {
    remote_total: usize,
    local_total: usize,
    profile_tag: u32,
    rows: Vec<Vec<u8>>,
}

impl ComputeSession {
    /// The remote entry count the phase was opened with.
    pub closed spec fn n_remote(self) -> int {
        self.remote_total as int
    }

    /// The local entry count the phase was opened with.
    pub closed spec fn n_local(self) -> int {
        self.local_total as int
    }

    /// The encryption-parameter profile the phase runs under.
    pub closed spec fn profile(self) -> u32 {
        self.profile_tag
    }

    /// The aggregated flags collected so far, in remote-entry order.
    pub closed spec fn flags_view(self) -> Seq<Seq<u8>> {
        envelope::blob_views(self.rows@)
    }

    /// The session's protocol invariant: never more flags than remote
    /// entries; every constructor and step maintains it.
    pub closed spec fn wf(self) -> bool {
        self.rows@.len() <= self.remote_total
    }

    /// Rows still owed before the result bundle can be produced.
    pub fn remaining(&self) -> (r: usize)
        requires
            self.wf(),
        ensures
            r == self.n_remote() - self.flags_view().len(),
            self.flags_view().len() <= self.n_remote(),
    {
        self.remote_total - self.rows.len()
    }

    /// Absorb the aggregated flag of the next remote entry.
    pub fn push_row(&mut self, aggregated: Vec<u8>)
        requires
            old(self).flags_view().len() < old(self).n_remote(),
        ensures
            final(self).n_remote() == old(self).n_remote(),
            final(self).n_local() == old(self).n_local(),
            final(self).profile() == old(self).profile(),
            final(self).flags_view() == old(self).flags_view().push(aggregated@),
            final(self).wf(),
    {
        let ghost prev = envelope::blob_views(self.rows@);
        self.rows.push(aggregated);
        proof {
            assert(envelope::blob_views(self.rows@) =~= prev.push(aggregated@));
        }
    }

    /// Close the phase and produce the result bundle.  A bundle can only
    /// be produced once every remote entry has its flag, and it then
    /// holds exactly one flag per remote entry, whatever order the rows
    /// were computed in.
    pub fn finish(self) -> (r: Vec<u8>)
        requires
            self.flags_view().len() == self.n_remote(),
        ensures
            bundle::load_envelope_spec(r@) == Result::<(u8, u32, Seq<Seq<u8>>, Seq<u8>), Error>::Ok(
                ((bundle::KIND_RESULT, self.profile(), self.flags_view(), Seq::<u8>::empty())),
            ),
            self.flags_view().len() == self.n_remote(),
    {
        bundle::build_result_bundle(self.profile_tag, &self.rows)
    }
}

/// Open the compute phase against a loaded remote bundle.  The
/// encryption-parameter profiles are checked first, then the two entry
/// counts; no comparison work is owed before both checks pass.
pub fn start_compute(remote: &PublicBundle, comparator_profile: u32, n_local: usize) -> (r: Result<
    ComputeSession,
    Error,
>)
    ensures
        match r {
            Ok(s) => remote.profile == comparator_profile && remote.ciphertexts@.len() > 0
                && n_local > 0 && s.n_remote() == remote.ciphertexts@.len() && s.n_local()
                == n_local && s.profile() == comparator_profile && s.flags_view().len() == 0
                && s.wf(),
            Err(e) => if remote.profile != comparator_profile {
                e == Error::CryptoConfigMismatch
            } else {
                e == Error::EmptyInputError && (remote.ciphertexts@.len() == 0 || n_local == 0)
            },
        },
{
    if remote.profile != comparator_profile {
        return Err(Error::CryptoConfigMismatch);
    }
    if remote.ciphertexts.len() == 0 || n_local == 0 {
        return Err(Error::EmptyInputError);
    }
    Ok(
        ComputeSession {
            remote_total: remote.ciphertexts.len(),
            local_total: n_local,
            profile_tag: comparator_profile,
            rows: Vec::new(),
        },
    )
}

/// Pair each retained identifier with its revealed flag, positionally.
/// Fails with `DeserializationError` exactly when the counts disagree,
/// as they cannot both have come from one enrollment.
pub fn pair_revealed(identifiers: &Vec<u128>, revealed: &Vec<bool>) -> (r: Result<
    Vec<(u128, bool)>,
    Error,
>)
    ensures
        match r {
            Ok(ps) => identifiers@.len() == revealed@.len() && ps@.len() == identifiers@.len()
                && forall|k: int|
                0 <= k < ps@.len() ==> #[trigger] ps@[k] == ((identifiers@[k], revealed@[k])),
            Err(e) => e == Error::DeserializationError && identifiers@.len() != revealed@.len(),
        },
{
    if identifiers.len() != revealed.len() {
        return Err(Error::DeserializationError);
    }
    let mut out: Vec<(u128, bool)> = Vec::new();
    let mut i: usize = 0;
    while i < identifiers.len()
        invariant
            i <= identifiers@.len(),
            identifiers@.len() == revealed@.len(),
            out@.len() == i,
            forall|k: int|
                0 <= k < i ==> #[trigger] out@[k] == ((identifiers@[k], revealed@[k])),
        decreases identifiers@.len() - i,
    {
        out.push((identifiers[i], revealed[i]));
        i = i + 1;
    }
    Ok(out)
}

} // verus!
