//! Pairing a channel with its owner's own address: a short code is issued,
//! the owner sends it from the address to pair, and a pairing that is
//! cancelled or expires falls back to the address paired before.

use vstd::prelude::*;
use rand::Rng;
use crate::models::ChannelStatus;
use crate::text::{chars_of, equals_str, trim_chars, trim_string};

verus! {

/// The address a channel's owner writes from, and a pairing in progress.
/// Times are milliseconds since the Unix epoch.
#[derive(Debug, Clone)]
pub struct UserAddress {
    pub address: Option<String>,
    pub pairing_code: Option<String>,
    pub pairing_initiated_at: Option<i64>,
    pub paired_at: Option<i64>,
}

/// The pairing part of a channel: its status and its owner's address.
#[derive(Debug, Clone)]
pub struct Pairing {
    pub status: ChannelStatus,
    pub user_address: Option<UserAddress>,
}

/// A user address as characters.
pub struct AddressView {
    pub address: Option<Seq<char>>,
    pub pairing_code: Option<Seq<char>>,
    pub pairing_initiated_at: Option<i64>,
    pub paired_at: Option<i64>,
}

/// A pairing as characters.
pub struct PairingView {
    pub status: ChannelStatus,
    pub user_address: Option<AddressView>,
}

pub open spec fn opt_view(s: Option<String>) -> Option<Seq<char>> {
    match s {
        Some(x) => Some(x@),
        None => None,
    }
}

impl View for Pairing {
    type V = PairingView;

    open spec fn view(&self) -> PairingView {
        PairingView {
            status: self.status,
            user_address: match self.user_address {
                Some(ua) => Some(AddressView {
                    address: opt_view(ua.address),
                    pairing_code: opt_view(ua.pairing_code),
                    pairing_initiated_at: ua.pairing_initiated_at,
                    paired_at: ua.paired_at,
                }),
                None => None,
            },
        }
    }
}

/// The address paired so far, if any.
pub open spec fn prior_address(p: PairingView) -> Option<Seq<char>> {
    match p.user_address {
        Some(ua) => ua.address,
        None => None,
    }
}

/// When the address paired so far was paired, if ever.
pub open spec fn prior_paired_at(p: PairingView) -> Option<i64> {
    match p.user_address {
        Some(ua) => ua.paired_at,
        None => None,
    }
}

/// The pairing once code `code` is issued at `now`: status `Pairing`, the
/// address paired so far kept.
pub open spec fn initiated(p: PairingView, code: Seq<char>, now: i64) -> PairingView {
    PairingView {
        status: ChannelStatus::Pairing,
        user_address: Some(AddressView {
            address: prior_address(p),
            pairing_code: Some(code),
            pairing_initiated_at: Some(now),
            paired_at: prior_paired_at(p),
        }),
    }
}

/// Whether a message `body` redeems the pairing: one is in progress and the
/// body, trimmed, is its code.
pub open spec fn redeems(p: PairingView, body: Seq<char>) -> bool {
    &&& p.status == ChannelStatus::Pairing
    &&& p.user_address matches Some(ua)
    &&& ua.pairing_code matches Some(code)
    &&& trim_chars(body) == code
}

/// The pairing once redeemed by `sender` at `now`: connected to the sender.
pub open spec fn redeemed(sender: Seq<char>, now: i64) -> PairingView {
    PairingView {
        status: ChannelStatus::Connected,
        user_address: Some(AddressView {
            address: Some(sender),
            pairing_code: None,
            pairing_initiated_at: None,
            paired_at: Some(now),
        }),
    }
}

/// The pairing once a pairing in progress is dropped: back to the address
/// paired before (connected), or to no address (disconnected).
pub open spec fn reverted(p: PairingView) -> PairingView {
    match prior_address(p) {
        Some(a) => PairingView {
            status: ChannelStatus::Connected,
            user_address: Some(AddressView {
                address: Some(a),
                pairing_code: None,
                pairing_initiated_at: None,
                paired_at: prior_paired_at(p),
            }),
        },
        None => PairingView { status: ChannelStatus::Disconnected, user_address: None },
    }
}

impl Pairing {
    /// Issues pairing code `code` at `now`.
    pub fn initiate(&mut self, code: String, now: i64)
        ensures
            final(self)@ == initiated(old(self)@, code@, now),
    {
        let (address, paired_at) = match &self.user_address {
            Some(ua) => (ua.address.clone(), ua.paired_at),
            None => (None, None),
        };
        assert(opt_view(address) == prior_address(self@));
        self.user_address = Some(UserAddress {
            address,
            pairing_code: Some(code),
            pairing_initiated_at: Some(now),
            paired_at,
        });
        self.status = ChannelStatus::Pairing;
    }

    /// Pairs `sender` at `now` when `body` redeems the pairing in progress;
    /// otherwise changes nothing. Whether it paired.
    pub fn try_redeem(&mut self, sender: &str, body: &str, now: i64) -> (r: bool)
        ensures
            r == redeems(old(self)@, body@),
            r ==> final(self)@ == redeemed(sender@, now),
            !r ==> final(self)@ == old(self)@,
    {
        if self.status != ChannelStatus::Pairing {
            return false;
        }
        let expected = match &self.user_address {
            Some(ua) => match &ua.pairing_code {
                Some(c) => c,
                None => return false,
            },
            None => return false,
        };
        let trimmed = trim_string(body);
        let t = chars_of(trimmed.as_str());
        if !equals_str(&t, expected.as_str()) {
            return false;
        }
        self.user_address = Some(UserAddress {
            address: Some(String::from_str(sender)),
            pairing_code: None,
            pairing_initiated_at: None,
            paired_at: Some(now),
        });
        self.status = ChannelStatus::Connected;
        true
    }

    /// Drops the pairing in progress, see [`reverted`].
    pub fn revert(&mut self)
        ensures
            final(self)@ == reverted(old(self)@),
    {
        let (address, paired_at) = match &self.user_address {
            Some(ua) => (ua.address.clone(), ua.paired_at),
            None => (None, None),
        };
        assert(opt_view(address) == prior_address(self@));
        match address {
            Some(a) => {
                self.status = ChannelStatus::Connected;
                self.user_address = Some(UserAddress {
                    address: Some(a),
                    pairing_code: None,
                    pairing_initiated_at: None,
                    paired_at,
                });
            },
            None => {
                self.status = ChannelStatus::Disconnected;
                self.user_address = None;
            },
        }
    }

    /// Cancels a pairing in progress; does nothing when none is.
    pub fn cancel(&mut self)
        ensures
            old(self)@.status == ChannelStatus::Pairing ==> final(self)@ == reverted(old(self)@),
            old(self)@.status != ChannelStatus::Pairing ==> final(self)@ == old(self)@,
    {
        if self.status == ChannelStatus::Pairing {
            self.revert();
        }
    }

    /// Whether the pairing in progress was issued before `cutoff`.
    pub fn expired(&self, cutoff: i64) -> (r: bool)
        ensures
            r == (self@.user_address matches Some(ua) && ua.pairing_initiated_at matches Some(t) && t < cutoff),
    {
        match &self.user_address {
            Some(ua) => match ua.pairing_initiated_at {
                Some(t) => t < cutoff,
                None => false,
            },
            None => false,
        }
    }
}

/// Sending the issued code, with any surrounding whitespace, from an
/// address pairs that address and connects the channel.
pub proof fn law_redeem_issued_code(p: PairingView, code: Seq<char>, now: i64, body: Seq<char>)
    requires
        trim_chars(body) == code,
    ensures
        redeems(initiated(p, code, now), body),
{
}

/// A pairing that is issued and then dropped leaves the address paired
/// before as it was (and when it was paired), and the channel connected exactly when there is one.
pub proof fn law_revert_keeps_prior_address(p: PairingView, code: Seq<char>, now: i64)
    ensures
        prior_address(reverted(initiated(p, code, now))) == prior_address(p),
        prior_address(p) is Some ==> prior_paired_at(reverted(initiated(p, code, now))) == prior_paired_at(p),
        (reverted(initiated(p, code, now)).status == ChannelStatus::Connected) == (prior_address(p) is Some),
        reverted(initiated(p, code, now)).status == ChannelStatus::Connected || reverted(initiated(p, code, now)).status == ChannelStatus::Disconnected,
{
}

/// While no pairing is in progress, no message pairs an address.
pub proof fn law_no_pairing_no_redeem(p: PairingView, body: Seq<char>)
    requires
        p.status != ChannelStatus::Pairing,
    ensures
        !redeems(p, body),
{
}

/// Uppercase letters and digits without the look-alikes I, L, O, 0 and 1.
pub open spec fn pair_code_alphabet() -> Seq<char> {
    "ABCDEFGHJKMNPQRSTUVWXYZ23456789"@
}

/// A random index below `n` (rand's `thread_rng().gen_range(0..n)`).
#[verifier::external_body]
fn random_index(n: usize) -> (r: usize)
    requires
        n > 0,
    ensures
        r < n,
{
    rand::thread_rng().gen_range(0..n)
}

/// The code that six draws (indices into [`pair_code_alphabet`]) spell.
pub open spec fn pair_code_of(draws: Seq<usize>) -> Seq<char> {
    Seq::new(6, |i: int| pair_code_alphabet()[draws[i] as int])
}

/// Whether `draws` are six valid indices into [`pair_code_alphabet`].
pub open spec fn valid_draws(draws: Seq<usize>) -> bool {
    draws.len() == 6 && forall|i: int| 0 <= i < 6 ==> #[trigger] draws[i] < 31
}

/// The pairing code that the six draws `draws` spell.
pub fn pair_code_from(draws: &[usize]) -> (r: String)
    requires
        valid_draws(draws@),
    ensures
        r@ == pair_code_of(draws@),
{
    let alphabet = chars_of("ABCDEFGHJKMNPQRSTUVWXYZ23456789");
    proof {
        reveal_strlit("ABCDEFGHJKMNPQRSTUVWXYZ23456789");
    }
    let mut r = String::new();
    let mut i: usize = 0;
    while i < 6
        invariant
            i <= 6,
            valid_draws(draws@),
            alphabet@ == pair_code_alphabet(),
            alphabet@.len() == 31,
            r@ =~= pair_code_of(draws@).subrange(0, i as int),
        decreases 6 - i,
    {
        let c = alphabet[draws[i]];
        crate::text::push_char(&mut r, c);
        proof {
            assert(pair_code_of(draws@).subrange(0, i + 1) =~= pair_code_of(draws@).subrange(0, i as int).push(c));
        }
        i = i + 1;
    }
    proof {
        assert(pair_code_of(draws@).subrange(0, 6) =~= pair_code_of(draws@));
    }
    r
}

/// A fresh six-character pairing code: six random draws from
/// [`pair_code_alphabet`], spelled by [`pair_code_from`].
pub fn generate_pair_code() -> (r: String)
    ensures
        exists|draws: Seq<usize>| valid_draws(draws) && r@ == pair_code_of(draws),
        r@.len() == 6,
        forall|i: int| 0 <= i < 6 ==> pair_code_alphabet().contains(#[trigger] r@[i]),
{
    let mut draws: Vec<usize> = Vec::new();
    let mut i: usize = 0;
    while i < 6
        invariant
            i <= 6,
            draws@.len() == i,
            forall|j: int| 0 <= j < i ==> #[trigger] draws@[j] < 31,
        decreases 6 - i,
    {
        draws.push(random_index(31));
        i = i + 1;
    }
    let r = pair_code_from(draws.as_slice());
    proof {
        reveal_strlit("ABCDEFGHJKMNPQRSTUVWXYZ23456789");
        assert forall|i: int| 0 <= i < 6 implies pair_code_alphabet().contains(#[trigger] r@[i]) by {
            assert(pair_code_alphabet()[draws@[i] as int] == r@[i]);
        }
    }
    r
}

} // verus!
