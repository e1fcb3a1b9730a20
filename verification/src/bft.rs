//! zoshBFT related primitives.
use vstd::prelude::*;

use crate::block::Header;
use crate::crypto::blake3_digest;
use crate::crypto::ed25519::{ed25519_verifies, verify};
use crate::util::FixedBytes;
use crate::CoreError;

verus! {

/// The zoshBFT consensus state
#[derive(Debug, Clone)]
pub struct Bft {
    /// The validators of the BFT: a set of ed25519 public keys
    pub validators: Vec<[u8; 32]>,
    /// The number of validators that need to sign the block
    pub threshold: u8,
    /// The authoring randomness series
    pub series: Vec<[u8; 32]>,
}

impl Default for Bft {
    /// No validators, a threshold of 0 and an empty randomness series.
    fn default() -> (bft: Bft)
        ensures
            bft.validators@.len() == 0,
            bft.threshold == 0,
            bft.series@.len() == 0,
    {
        Bft { validators: Vec::new(), threshold: 0, series: Vec::new() }
    }
}

impl Bft {
    /// `key` is one of the validators.
    pub open spec fn has_validator(self, key: Seq<u8>) -> bool {
        exists|i: int| 0 <= i < self.validators@.len() && #[trigger] self.validators@[i]@ == key
    }

    /// A vote of a validator whose signature is not 64 bytes long.
    pub open spec fn malformed(self, vote: ([u8; 32], Vec<u8>)) -> bool {
        self.has_validator(vote.0@) && vote.1@.len() != 64
    }

    /// A vote of a validator carrying a valid signature of `msg`.
    pub open spec fn counts(self, vote: ([u8; 32], Vec<u8>), msg: Seq<u8>) -> bool {
        &&& self.has_validator(vote.0@)
        &&& vote.1@.len() == 64
        &&& ed25519_verifies(vote.0@, msg, vote.1@)
    }

    /// The position of the first malformed vote of `votes`, if any.
    pub open spec fn first_malformed(self, votes: Seq<([u8; 32], Vec<u8>)>) -> Option<int>
        decreases votes.len(),
    {
        if votes.len() == 0 {
            None
        } else {
            match self.first_malformed(votes.drop_last()) {
                Some(i) => Some(i),
                None => if self.malformed(votes.last()) {
                    Some(votes.len() - 1)
                } else {
                    None
                },
            }
        }
    }

    /// Some vote of `votes` is keyed by `key`.
    pub open spec fn key_seen(votes: Seq<([u8; 32], Vec<u8>)>, key: Seq<u8>) -> bool {
        exists|j: int| 0 <= j < votes.len() && #[trigger] votes[j].0@ == key
    }

    /// The number of votes of `votes` that count for `msg`: a vote counts
    /// when it carries a valid validator signature and no earlier vote has
    /// its key, so each validator counts at most once.
    pub open spec fn valid_votes(self, votes: Seq<([u8; 32], Vec<u8>)>, msg: Seq<u8>) -> nat
        decreases votes.len(),
    {
        if votes.len() == 0 {
            0
        } else {
            self.valid_votes(votes.drop_last(), msg) + if self.counts(votes.last(), msg)
                && !Self::key_seen(votes.drop_last(), votes.last().0@) {
                1nat
            } else {
                0nat
            }
        }
    }

    /// The validator keys that `votes` holds a vote for.
    pub open spec fn voter_keys(self, votes: Seq<([u8; 32], Vec<u8>)>) -> Set<Seq<u8>>
        decreases votes.len(),
    {
        if votes.len() == 0 {
            Set::empty()
        } else if self.has_validator(votes.last().0@) {
            self.voter_keys(votes.drop_last()).insert(votes.last().0@)
        } else {
            self.voter_keys(votes.drop_last())
        }
    }

    /// The outcome of checking `votes` on the header hash `msg`: the first
    /// malformed validator vote is an error; otherwise the valid votes must
    /// reach the threshold.
    pub open spec fn vote_outcome(self, votes: Seq<([u8; 32], Vec<u8>)>, msg: Seq<u8>) -> Result<(), CoreError> {
        match self.first_malformed(votes) {
            Some(i) => Err(CoreError::InvalidLength { expected: 64, got: votes[i].1@.len() as usize }),
            None => if self.valid_votes(votes, msg) < self.threshold {
                Err(CoreError::InsufficientVotes { threshold: self.threshold, votes: self.valid_votes(votes, msg) as usize })
            } else {
                Ok(())
            },
        }
    }

    /// Whether `key` is one of the validators.
    pub fn is_validator(&self, key: &[u8; 32]) -> (found: bool)
        ensures
            found == self.has_validator(key@),
    {
        let mut i: usize = 0;
        while i < self.validators.len()
            invariant
                0 <= i <= self.validators@.len(),
                forall|j: int| 0 <= j < i ==> self.validators@[j]@ != key@,
            decreases self.validators@.len() - i,
        {
            if crate::bytes::bytes_eq(self.validators[i].as_slice(), key.as_slice()) {
                return true;
            }
            i = i + 1;
        }
        false
    }

    /// Checks that `votes` valid votes reach the threshold.
    pub fn check_threshold(&self, votes: usize) -> (r: Result<(), CoreError>)
        ensures
            r == (if votes < self.threshold {
                Err(CoreError::InsufficientVotes { threshold: self.threshold, votes })
            } else {
                Ok(())
            }),
    {
        if votes < self.threshold as usize {
            return Err(CoreError::InsufficientVotes { threshold: self.threshold, votes });
        }
        Ok(())
    }

    /// Validates `votes` on the header hash `hash`.
    pub fn validate_votes_on(&self, hash: &[u8; 32], votes: &Vec<([u8; 32], Vec<u8>)>) -> (r: Result<(), CoreError>)
        ensures
            r == self.vote_outcome(votes@, hash@),
            r is Ok ==> self.threshold <= self.voter_keys(votes@).len(),
    {
        let ghost msg = hash@;
        let mut count: usize = 0;
        let mut i: usize = 0;
        proof {
            assert(votes@.take(0) =~= Seq::<([u8; 32], Vec<u8>)>::empty());
        }
        while i < votes.len()
            invariant
                msg == hash@,
                0 <= i <= votes@.len(),
                count <= i,
                count == self.valid_votes(votes@.take(i as int), msg),
                self.first_malformed(votes@.take(i as int)) is None,
            decreases votes@.len() - i,
        {
            let key = &votes[i].0;
            let sig = &votes[i].1;
            let ghost prefix = votes@.take(i + 1);
            proof {
                assert(prefix.drop_last() =~= votes@.take(i as int));
                assert(prefix.last() == votes@[i as int]);
            }
            if !self.is_validator(key) {
                i = i + 1;
                continue;
            }
            let sig64 = match sig.bytes64() {
                Ok(s) => s,
                Err(e) => {
                    proof {
                        lemma_first_malformed_extends(*self, votes@, i as int);
                    }
                    return Err(e);
                },
            };
            if seen_before(votes, i) {
                i = i + 1;
                continue;
            }
            if verify(key, hash.as_slice(), &sig64).is_ok() {
                count = count + 1;
            }
            i = i + 1;
        }
        proof {
            assert(votes@.take(i as int) =~= votes@);
            lemma_valid_votes_bounded(*self, votes@, msg);
        }
        self.check_threshold(count)
    }

    /// Validate the votes of the block: enough validators must have signed
    /// the header hash (each validator counts once, however often its key
    /// occurs), and no validator vote may carry a signature of the wrong
    /// length.
    pub fn validate_votes(&self, header: &Header) -> (r: Result<(), CoreError>)
        ensures
            r == self.vote_outcome(header.votes@, blake3_digest(header.preimage())),
            r is Ok ==> self.threshold <= self.voter_keys(header.votes@).len(),
    {
        let hash = header.hash();
        self.validate_votes_on(&hash, &header.votes)
    }
}

/// Whether some vote before position `i` of `votes` has the key of vote `i`.
fn seen_before(votes: &Vec<([u8; 32], Vec<u8>)>, i: usize) -> (seen: bool)
    requires
        i < votes@.len(),
    ensures
        seen == Bft::key_seen(votes@.take(i as int), votes@[i as int].0@),
{
    let mut j: usize = 0;
    while j < i
        invariant
            i < votes@.len(),
            0 <= j <= i,
            forall|k: int| 0 <= k < j ==> (#[trigger] votes@[k]).0@ != votes@[i as int].0@,
        decreases i - j,
    {
        if crate::bytes::bytes_eq(votes[j].0.as_slice(), votes[i].0.as_slice()) {
            assert(votes@.take(i as int)[j as int] == votes@[j as int]);
            return true;
        }
        j = j + 1;
    }
    proof {
        assert forall|k: int| 0 <= k < i implies #[trigger] votes@.take(i as int)[k].0@ != votes@[i as int].0@ by {
            assert(votes@.take(i as int)[k] == votes@[k]);
        }
    }
    false
}

/// The voter keys of `votes` are the validator keys that some vote of
/// `votes` carries; they form a finite set.
proof fn lemma_voter_keys(bft: Bft, votes: Seq<([u8; 32], Vec<u8>)>)
    ensures
        bft.voter_keys(votes).finite(),
        forall|k: Seq<u8>| #[trigger] bft.voter_keys(votes).contains(k) <==> (bft.has_validator(k) && Bft::key_seen(votes, k)),
    decreases votes.len(),
{
    if votes.len() > 0 {
        let init = votes.drop_last();
        lemma_voter_keys(bft, init);
        assert forall|k: Seq<u8>| #[trigger] bft.voter_keys(votes).contains(k) <==> (bft.has_validator(k) && Bft::key_seen(votes, k)) by {
            if Bft::key_seen(init, k) {
                let j = choose|j: int| 0 <= j < init.len() && #[trigger] init[j].0@ == k;
                assert(votes[j] == init[j]);
            }
            if Bft::key_seen(votes, k) && !Bft::key_seen(init, k) {
                let j = choose|j: int| 0 <= j < votes.len() && #[trigger] votes[j].0@ == k;
                if j < init.len() {
                    assert(init[j] == votes[j]);
                }
                assert(j == votes.len() - 1);
            }
            if votes.last().0@ == k {
                assert(votes[votes.len() - 1].0@ == k);
            }
        }
    }
}

/// Each validator counts at most once: the number of valid votes never
/// exceeds the number of distinct validator keys that the votes carry.
pub proof fn lemma_valid_votes_bounded(bft: Bft, votes: Seq<([u8; 32], Vec<u8>)>, msg: Seq<u8>)
    ensures
        bft.voter_keys(votes).finite(),
        bft.valid_votes(votes, msg) <= bft.voter_keys(votes).len(),
    decreases votes.len(),
{
    lemma_voter_keys(bft, votes);
    if votes.len() > 0 {
        let init = votes.drop_last();
        let key = votes.last().0@;
        lemma_valid_votes_bounded(bft, init, msg);
        lemma_voter_keys(bft, init);
        if bft.counts(votes.last(), msg) && !Bft::key_seen(init, key) {
            assert(!bft.voter_keys(init).contains(key));
        }
    }
}

/// When the first `i` votes hold no malformed vote and vote `i` is malformed,
/// vote `i` is the first malformed vote of the whole list.
proof fn lemma_first_malformed_extends(bft: Bft, votes: Seq<([u8; 32], Vec<u8>)>, i: int)
    requires
        0 <= i < votes.len(),
        bft.first_malformed(votes.take(i)) is None,
        bft.malformed(votes[i]),
    ensures
        bft.first_malformed(votes) == Some(i),
    decreases votes.len() - i,
{
    let n = votes.len() as int;
    lemma_first_malformed_prefix(bft, votes, i, n);
    assert(votes.take(n) =~= votes);
}

proof fn lemma_first_malformed_prefix(bft: Bft, votes: Seq<([u8; 32], Vec<u8>)>, i: int, n: int)
    requires
        0 <= i < n <= votes.len(),
        bft.first_malformed(votes.take(i)) is None,
        bft.malformed(votes[i]),
    ensures
        bft.first_malformed(votes.take(n)) == Some(i),
    decreases n - i,
{
    assert(votes.take(n).drop_last() =~= votes.take(n - 1));
    if n == i + 1 {
        assert(votes.take(n).last() == votes[i]);
    } else {
        lemma_first_malformed_prefix(bft, votes, i, n - 1);
    }
}

} // verus!
