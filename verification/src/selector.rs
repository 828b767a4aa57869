//! Candidate selection: walk the ranked candidates in order, have the
//! caller verify each against the live service, stop at the first that
//! verifies, and fall back to the highest-ranked candidate when none does.
//! The selector holds the decision state; the caller performs the network
//! call and reports its outcome, so a verification that errors is simply
//! reported as not verified and the candidate is skipped.

use vstd::prelude::*;
use vstd::string::*;

use crate::candidates::CredView;
use crate::model::KakaoCredentials;
use crate::session::KakaoError;
use crate::text::str_eq;

verus! {

pub open spec fn creds_view(s: Seq<KakaoCredentials>) -> Seq<CredView> {
    s.map_values(|c: KakaoCredentials| c@)
}

/// Some entry carries this bearer token.
pub open spec fn spec_has_cred_token(s: Seq<CredView>, token: Seq<char>) -> bool {
    exists|i: int| 0 <= i < s.len() && (#[trigger] s[i]).oauth_token == token
}

/// Keep the first entry of each distinct bearer token, in order.
pub open spec fn spec_dedup_creds(s: Seq<CredView>) -> Seq<CredView>
    decreases s.len(),
{
    if s.len() == 0 {
        Seq::empty()
    } else {
        let rest = spec_dedup_creds(s.drop_last());
        if spec_has_cred_token(rest, s.last().oauth_token) {
            rest
        } else {
            rest.push(s.last())
        }
    }
}

/// Whether a kept entry already carries this token.
#[verifier::loop_isolation(false)]
fn has_cred_token(creds: &Vec<KakaoCredentials>, token: &str) -> (r: bool)
    ensures
        r <==> spec_has_cred_token(creds_view(creds@), token@),
{
    let mut i: usize = 0;
    while i < creds.len()
        invariant
            i <= creds@.len(),
            forall|k: int|
                0 <= k < i ==> (#[trigger] creds_view(creds@)[k]).oauth_token != token@,
        decreases creds@.len() - i,
    {
        if str_eq(creds[i].oauth_token.as_str(), token) {
            proof {
                assert(creds_view(creds@)[i as int].oauth_token == token@);
            }
            return true;
        }
        i += 1;
    }
    false
}

/// The walk through the ranked candidates. `chosen` is set once a decision
/// stands: the index of the first candidate that verified, or 0 when every
/// candidate was tried in vain and the highest-ranked one is handed out as
/// the flagged best guess.
pub struct CandidateSelector {
    pub candidates: Vec<KakaoCredentials>,
    pub next_index: usize,
    pub chosen: Option<usize>,
    pub chosen_verified: bool,
}

impl CandidateSelector {
    /// The selector always holds at least one candidate, walks it in
    /// bounds, and once decided points at a held candidate.
    pub open spec fn wf(&self) -> bool {
        &&& self.candidates@.len() >= 1
        &&& self.next_index <= self.candidates@.len()
        &&& (self.chosen is None ==> self.next_index < self.candidates@.len())
        &&& (match self.chosen {
            Some(c) => c < self.candidates@.len(),
            None => true,
        })
    }

    /// Start a walk over candidates in ranked order, dropping duplicate
    /// bearer tokens. Fails exactly when no candidate was given at all.
    #[verifier::loop_isolation(false)]
    pub fn new(candidates: Vec<KakaoCredentials>) -> (r: Result<Self, KakaoError>)
        ensures
            match r {
                Ok(s) => {
                    &&& candidates@.len() > 0
                    &&& s.wf()
                    &&& creds_view(s.candidates@) == spec_dedup_creds(creds_view(candidates@))
                    &&& s.next_index == 0
                    &&& s.chosen is None
                },
                Err(e) => candidates@.len() == 0 && e is NoCandidates,
            },
    {
        if candidates.len() == 0 {
            return Err(KakaoError::NoCandidates);
        }
        let mut unique: Vec<KakaoCredentials> = Vec::new();
        let mut i: usize = 0;
        proof {
            assert(creds_view(candidates@).take(0) =~= Seq::<CredView>::empty());
        }
        while i < candidates.len()
            invariant
                i <= candidates@.len(),
                creds_view(unique@) == spec_dedup_creds(creds_view(candidates@).take(i as int)),
                i > 0 ==> unique@.len() > 0,
            decreases candidates@.len() - i,
        {
            let ghost cv = creds_view(candidates@);
            proof {
                assert(cv.take(i + 1).drop_last() =~= cv.take(i as int));
                assert(cv.take(i + 1).last() == cv[i as int]);
                assert(cv[i as int] == candidates@[i as int]@);
            }
            if !has_cred_token(&unique, candidates[i].oauth_token.as_str()) {
                let c = candidates[i].clone();
                proof {
                    assert(creds_view(unique@.push(c)) =~= creds_view(unique@).push(c@));
                }
                unique.push(c);
            }
            i += 1;
        }
        proof {
            assert(creds_view(candidates@).take(i as int) =~= creds_view(candidates@));
        }
        Ok(CandidateSelector { candidates: unique, next_index: 0, chosen: None, chosen_verified: false })
    }

    /// The candidate to verify next, or nothing once a decision stands.
    pub fn current(&self) -> (r: Option<&KakaoCredentials>)
        requires
            self.wf(),
        ensures
            match r {
                Some(c) => self.chosen is None && *c == self.candidates@[
                    self.next_index as int
                ],
                None => self.chosen is Some,
            },
    {
        match self.chosen {
            Some(_) => None,
            None => Some(&self.candidates[self.next_index]),
        }
    }

    /// Report the verification outcome of the current candidate: a
    /// verified candidate is chosen on the spot and nothing later is ever
    /// tried; otherwise the walk moves on, and when the last candidate
    /// fails too, the highest-ranked one is chosen as an unverified best
    /// guess.
    pub fn record(&mut self, verified: bool)
        requires
            old(self).wf(),
            old(self).chosen is None,
        ensures
            final(self).wf(),
            final(self).candidates == old(self).candidates,
            if verified {
                final(self).chosen == Some(old(self).next_index) && final(self).chosen_verified
            } else {
                if old(self).next_index + 1 == old(self).candidates@.len() {
                    final(self).chosen == Some(0usize) && !final(self).chosen_verified
                } else {
                    &&& final(self).chosen is None
                    &&& !final(self).chosen_verified
                    &&& final(self).next_index == old(self).next_index + 1
                }
            },
    {
        if verified {
            self.chosen = Some(self.next_index);
            self.chosen_verified = true;
        } else {
            let n = self.candidates.len();
            self.next_index = self.next_index + 1;
            self.chosen_verified = false;
            if self.next_index == n {
                self.chosen = Some(0);
            }
        }
    }

    /// The decision, once one stands: the chosen credentials, and whether
    /// they actually verified or are the flagged best guess.
    pub fn decision(&self) -> (r: Option<(&KakaoCredentials, bool)>)
        requires
            self.wf(),
        ensures
            match r {
                Some(d) => {
                    &&& self.chosen matches Some(c) && *d.0 == self.candidates@[c as int]
                    &&& d.1 == self.chosen_verified
                },
                None => self.chosen is None,
            },
    {
        match self.chosen {
            Some(c) => Some((&self.candidates[c], self.chosen_verified)),
            None => None,
        }
    }
}

} // verus!
