//! Quorum-based endorsement verification: counting valid signatures from a
//! registered roster of members and authorizing an action exactly when the
//! count meets the roster's threshold.
//!
//! Identity is bound by name only: one endorsement counts per distinct
//! name, and nothing stops two names from mapping to the same or colluding
//! keys. Callers that need distinct-identity guarantees must enforce them
//! outside this core.
use vstd::prelude::*;

use crate::crypto::{
    bytes_of_hex, ecdsa_endorsement_check, ecdsa_keygen, ecdsa_pubkey, ecdsa_sign,
    endorsement_check, hex_decode, hex_encode, hex_str_of, is_hex_seq, pubkey_of, sig_of,
};
use crate::field::{group_order, nat_of_be};
use crate::CoreError;

verus! {

/// A registered group member: a unique name and a hex-encoded compressed
/// public key. The private key is carried only so a simulation can
/// generate test endorsements; production use must not rely on it.
#[derive(Clone)]
pub struct Member {
    pub name: String,
    pub pubkey_hex: String,
    pub privkey_hex: String,
}

impl Member {
    /// Creates a member with a freshly sampled random keypair, both halves
    /// hex-encoded.
    pub fn new(name: &str) -> (m: Member)
        ensures
            m.name@ == name@,
            exists|sk: Seq<u8>|
                #[trigger] sk.len() == 32 && 0 < nat_of_be(sk) < group_order() && m.privkey_hex@
                    == hex_str_of(sk) && m.pubkey_hex@ == hex_str_of(pubkey_of(sk)),
    {
        let sk = ecdsa_keygen();
        let pk = ecdsa_pubkey(&sk).unwrap();
        let m = Member {
            name: name.to_owned(),
            pubkey_hex: hex_encode(&pk),
            privkey_hex: hex_encode(&sk),
        };
        proof {
            let w = sk@;
            assert(w.len() == 32 && 0 < nat_of_be(w) < group_order() && m.privkey_hex@
                == hex_str_of(w) && m.pubkey_hex@ == hex_str_of(pubkey_of(w)));
        }
        m
    }

    /// Signs a message with the member's stored private key (simulation
    /// only). Fails exactly when the stored key is not well-formed hex for
    /// a nonzero canonical 32-byte scalar.
    pub fn sign(&self, message: &[u8]) -> (r: Result<String, CoreError>)
        ensures
            (r is Ok) <==> (is_hex_seq(self.privkey_hex@) && bytes_of_hex(
                self.privkey_hex@,
            ).len() == 32 && 0 < nat_of_be(bytes_of_hex(self.privkey_hex@)) < group_order()),
            (r matches Ok(s) ==> s@ == hex_str_of(
                sig_of(bytes_of_hex(self.privkey_hex@), message@),
            )),
            (r matches Err(e) ==> e == CoreError::InvalidScalarEncoding),
    {
        let sk = match hex_decode(&self.privkey_hex) {
            Some(b) => b,
            None => {
                return Err(CoreError::InvalidScalarEncoding);
            },
        };
        if sk.len() != 32 {
            return Err(CoreError::InvalidScalarEncoding);
        }
        match ecdsa_sign(&sk, message) {
            Some(sig) => Ok(hex_encode(&sig)),
            None => Err(CoreError::InvalidScalarEncoding),
        }
    }
}

/// The roster: an endorsement threshold and the ordered member list. Names
/// are expected to be unique; a lookup takes the first match.
pub struct DaoGroup {
    pub threshold: usize,
    pub members: Vec<Member>,
}

/// The position of the first roster member with the given name, or -1 when
/// the name is not on the roster.
pub open spec fn find_member(members: Seq<Member>, name: Seq<char>) -> int
    decreases members.len(),
{
    if members.len() == 0 {
        -1
    } else if members[0].name@ == name {
        0
    } else {
        let r = find_member(members.drop_first(), name);
        if r < 0 {
            -1
        } else {
            r + 1
        }
    }
}

/// The first match is at `i` when `i` matches and nothing before it does.
proof fn lemma_find_member_at(members: Seq<Member>, name: Seq<char>, i: int)
    requires
        0 <= i < members.len(),
        members[i].name@ == name,
        forall|a: int| 0 <= a < i ==> (#[trigger] members[a]).name@ != name,
    ensures
        find_member(members, name) == i,
    decreases members.len(),
{
    if i == 0 {
    } else {
        assert(members[0].name@ != name);
        let rest = members.drop_first();
        assert(rest[i - 1] == members[i]);
        assert(forall|a: int| 0 <= a < i - 1 ==> (#[trigger] rest[a]) == members[a + 1]);
        lemma_find_member_at(rest, name, i - 1);
    }
}

/// No roster entry matches: the lookup reports -1.
proof fn lemma_find_member_none(members: Seq<Member>, name: Seq<char>)
    requires
        forall|a: int| 0 <= a < members.len() ==> (#[trigger] members[a]).name@ != name,
    ensures
        find_member(members, name) == -1,
    decreases members.len(),
{
    if members.len() > 0 {
        let rest = members.drop_first();
        assert(forall|a: int| 0 <= a < rest.len() ==> (#[trigger] rest[a]) == members[a + 1]);
        lemma_find_member_none(rest, name);
    }
}

/// Whether one endorsement entry counts: its name is on the roster, the
/// member's stored public key and the supplied signature are well-formed
/// hex, and ECDSA verification of the message succeeds.
pub open spec fn entry_valid(
    members: Seq<Member>,
    msg: Seq<u8>,
    name: Seq<char>,
    sig_hex: Seq<char>,
) -> bool {
    let i = find_member(members, name);
    i >= 0 && is_hex_seq(members[i].pubkey_hex@) && is_hex_seq(sig_hex) && endorsement_check(
        bytes_of_hex(members[i].pubkey_hex@),
        msg,
        bytes_of_hex(sig_hex),
    )
}

/// Whether an earlier entry in the list carries the same name.
pub open spec fn name_repeated_before(entries: Seq<(String, String)>, j: int) -> bool {
    exists|i: int| 0 <= i < j && (#[trigger] entries[i]).0@ == entries[j].0@
}

/// How many of the first `k` entries count: one endorsement per distinct
/// name (a later entry under a name already seen is ignored), and only
/// valid entries are counted.
pub open spec fn count_valid_prefix(
    members: Seq<Member>,
    msg: Seq<u8>,
    entries: Seq<(String, String)>,
    k: int,
) -> nat
    decreases k,
{
    if k <= 0 {
        0
    } else {
        count_valid_prefix(members, msg, entries, k - 1) + (
        if !name_repeated_before(entries, k - 1) && entry_valid(
            members,
            msg,
            entries[k - 1].0@,
            entries[k - 1].1@,
        ) {
            1nat
        } else {
            0nat
        })
    }
}

/// The number of valid endorsements among all the entries.
pub open spec fn count_valid(
    members: Seq<Member>,
    msg: Seq<u8>,
    entries: Seq<(String, String)>,
) -> nat {
    count_valid_prefix(members, msg, entries, entries.len() as int)
}

/// Every prefix of a list of distinct-named, valid endorsements counts in
/// full.
proof fn lemma_count_all_valid(
    members: Seq<Member>,
    msg: Seq<u8>,
    entries: Seq<(String, String)>,
    k: int,
)
    requires
        0 <= k <= entries.len(),
        forall|i: int, j: int|
            0 <= i < j < entries.len() ==> (#[trigger] entries[i]).0@ != (#[trigger] entries[j]).0@,
        forall|i: int|
            0 <= i < entries.len() ==> entry_valid(
                members,
                msg,
                (#[trigger] entries[i]).0@,
                entries[i].1@,
            ),
    ensures
        count_valid_prefix(members, msg, entries, k) == k,
    decreases k,
{
    if k > 0 {
        lemma_count_all_valid(members, msg, entries, k - 1);
        assert(!name_repeated_before(entries, k - 1));
    }
}

/// Law (quorum threshold boundary): given endorsements from distinct,
/// registered members that all verify cryptographically, the quorum count
/// equals their number, so authorization holds exactly when that number
/// meets the threshold.
pub proof fn lemma_quorum_boundary(
    members: Seq<Member>,
    msg: Seq<u8>,
    entries: Seq<(String, String)>,
    threshold: usize,
)
    requires
        forall|i: int, j: int|
            0 <= i < j < entries.len() ==> (#[trigger] entries[i]).0@ != (#[trigger] entries[j]).0@,
        forall|i: int|
            0 <= i < entries.len() ==> entry_valid(
                members,
                msg,
                (#[trigger] entries[i]).0@,
                entries[i].1@,
            ),
    ensures
        count_valid(members, msg, entries) == entries.len(),
        (count_valid(members, msg, entries) >= threshold) <==> (entries.len() >= threshold),
{
    lemma_count_all_valid(members, msg, entries, entries.len() as int);
}

impl DaoGroup {
    /// Counts the valid endorsements among the entries and authorizes
    /// exactly when the count meets the roster threshold. Unknown names
    /// and entries that fail to decode or verify are skipped, never fatal;
    /// a name is counted at most once.
    pub fn verify_proposal(&self, message: &[u8], signatures: &Vec<(String, String)>) -> (r: bool)
        ensures
            r == (count_valid(self.members@, message@, signatures@) >= self.threshold),
    {
        let n = signatures.len();
        let mlen = self.members.len();
        let mut valid_votes: usize = 0;
        let mut k: usize = 0;
        while k < n
            invariant
                k <= n,
                n == signatures@.len(),
                mlen == self.members@.len(),
                valid_votes <= k,
                valid_votes == count_valid_prefix(self.members@, message@, signatures@, k as int),
            decreases n - k,
        {
            let mut repeated = false;
            let mut i: usize = 0;
            while i < k
                invariant
                    i <= k,
                    k < n,
                    n == signatures@.len(),
                    repeated == (exists|a: int|
                        0 <= a < i && (#[trigger] signatures@[a]).0@ == signatures@[k as int].0@),
                decreases k - i,
            {
                if signatures[i].0 == signatures[k].0 {
                    repeated = true;
                }
                i += 1;
            }
            let mut counts = false;
            if !repeated {
                let mut found = false;
                let mut found_idx: usize = 0;
                let mut mi: usize = 0;
                while mi < mlen
                    invariant
                        mi <= mlen,
                        k < n,
                        n == signatures@.len(),
                        mlen == self.members@.len(),
                        !found ==> forall|a: int|
                            0 <= a < mi ==> (#[trigger] self.members@[a]).name@
                                != signatures@[k as int].0@,
                        found ==> (found_idx < mi && self.members@[found_idx as int].name@
                            == signatures@[k as int].0@ && forall|a: int|
                            0 <= a < found_idx ==> (#[trigger] self.members@[a]).name@
                                != signatures@[k as int].0@),
                    decreases mlen - mi,
                {
                    if !found && self.members[mi].name == signatures[k].0 {
                        found = true;
                        found_idx = mi;
                    }
                    mi += 1;
                }
                if found {
                    proof {
                        lemma_find_member_at(
                            self.members@,
                            signatures@[k as int].0@,
                            found_idx as int,
                        );
                    }
                    match hex_decode(&self.members[found_idx].pubkey_hex) {
                        Some(pk) => {
                            match hex_decode(&signatures[k].1) {
                                Some(sig) => {
                                    counts = ecdsa_endorsement_check(&pk, message, &sig);
                                },
                                None => {},
                            }
                        },
                        None => {},
                    }
                } else {
                    proof {
                        lemma_find_member_none(self.members@, signatures@[k as int].0@);
                    }
                }
            }
            proof {
                assert(repeated == name_repeated_before(signatures@, k as int));
                assert(counts == (!name_repeated_before(signatures@, k as int) && entry_valid(
                    self.members@,
                    message@,
                    signatures@[k as int].0@,
                    signatures@[k as int].1@,
                )));
            }
            if counts {
                valid_votes += 1;
            }
            k += 1;
        }
        valid_votes >= self.threshold
    }
}

} // verus!
