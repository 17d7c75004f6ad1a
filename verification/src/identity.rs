use vstd::prelude::*;

use crate::errors::SxtError;
use crate::strutil::{digits_only, first_index, is_digit, lemma_first_index_props, no_char};

verus! {

/// True when `s` can stand as the value of one line of a credential file.
pub open spec fn line_text_ok(s: Seq<char>) -> bool {
    no_char(s, '\n')
}

/// A subscription id must be non-empty and fit on one line.
pub open spec fn valid_subscription_id(s: Seq<char>) -> bool {
    s.len() > 0 && line_text_ok(s)
}

/// Mathematical image of a [`Keypair`].
pub struct KeypairView {
    pub private_key: Seq<char>,
    pub public_key: Seq<char>,
}

impl KeypairView {
    /// Both halves of the pair fit on one credential line.
    pub open spec fn wf(self) -> bool {
        line_text_ok(self.private_key) && line_text_ok(self.public_key)
    }
}

/// A signing keypair, held as printable text.
#[derive(Debug)]
pub struct Keypair {
    pub private_key: String,
    pub public_key: String,
}

impl View for Keypair {
    type V = KeypairView;

    open spec fn view(&self) -> KeypairView {
        KeypairView { private_key: self.private_key@, public_key: self.public_key@ }
    }
}

/// Mathematical image of an [`Identity`].
pub struct IdentityView {
    pub subscription_id: Seq<char>,
    pub keypair: KeypairView,
}

impl IdentityView {
    pub open spec fn wf(self) -> bool {
        valid_subscription_id(self.subscription_id) && self.keypair.wf()
    }
}

/// A user identity: a chosen subscription id together with its keypair.
/// Immutable once created; creation makes no remote call.
#[derive(Debug)]
pub struct Identity {
    pub subscription_id: String,
    pub keypair: Keypair,
}

impl View for Identity {
    type V = IdentityView;

    open spec fn view(&self) -> IdentityView {
        IdentityView { subscription_id: self.subscription_id@, keypair: self.keypair@ }
    }
}

/// The decimal digit character for `d` below ten.
pub open spec fn digit_char(d: nat) -> char {
    if d == 0 {
        '0'
    } else if d == 1 {
        '1'
    } else if d == 2 {
        '2'
    } else if d == 3 {
        '3'
    } else if d == 4 {
        '4'
    } else if d == 5 {
        '5'
    } else if d == 6 {
        '6'
    } else if d == 7 {
        '7'
    } else if d == 8 {
        '8'
    } else {
        '9'
    }
}

/// The decimal numeral of `n`, most significant digit first.
pub open spec fn decimal_of(n: nat) -> Seq<char>
    decreases n,
{
    if n < 10 {
        seq![digit_char(n)]
    } else {
        decimal_of(n / 10) + seq![digit_char(n % 10)]
    }
}

pub proof fn lemma_decimal_digits(n: nat)
    ensures
        decimal_of(n).len() > 0,
        digits_only(decimal_of(n)),
        line_text_ok(decimal_of(n)),
    decreases n,
{
    if n < 10 {
        assert(is_digit(digit_char(n)));
    } else {
        lemma_decimal_digits(n / 10);
        let u = decimal_of(n / 10);
        let s = decimal_of(n);
        assert(is_digit(digit_char(n % 10)));
        assert forall|i: int| 0 <= i < s.len() implies is_digit(s[i]) && s[i] != '\n' by {
            if i < u.len() {
                assert(s[i] == u[i]);
            }
        }
    }
}

/// One-character slice for the digit `d`.
fn digit_str(d: u64) -> (r: &'static str)
    requires
        d < 10,
    ensures
        r@ =~= seq![digit_char(d as nat)],
{
    if d == 0 {
        proof {
            reveal_strlit("0");
        }
        return "0";
    }
    if d == 1 {
        proof {
            reveal_strlit("1");
        }
        return "1";
    }
    if d == 2 {
        proof {
            reveal_strlit("2");
        }
        return "2";
    }
    if d == 3 {
        proof {
            reveal_strlit("3");
        }
        return "3";
    }
    if d == 4 {
        proof {
            reveal_strlit("4");
        }
        return "4";
    }
    if d == 5 {
        proof {
            reveal_strlit("5");
        }
        return "5";
    }
    if d == 6 {
        proof {
            reveal_strlit("6");
        }
        return "6";
    }
    if d == 7 {
        proof {
            reveal_strlit("7");
        }
        return "7";
    }
    if d == 8 {
        proof {
            reveal_strlit("8");
        }
        return "8";
    }
    proof {
        reveal_strlit("9");
    }
    "9"
}

/// The decimal numeral of `n` as owned text.
pub fn decimal_string(n: u64) -> (r: String)
    ensures
        r@ == decimal_of(n as nat),
    decreases n,
{
    if n < 10 {
        let s = String::from_str(digit_str(n));
        proof {
            assert(s@ =~= decimal_of(n as nat));
        }
        s
    } else {
        let mut r = decimal_string(n / 10);
        r.append(digit_str(n % 10));
        proof {
            assert(r@ =~= decimal_of(n as nat));
        }
        r
    }
}

/// Spec text of the private half of a keypair derived from `seed`.
pub open spec fn seed_private_key(seed: nat) -> Seq<char> {
    "sk-"@ + decimal_of(seed)
}

/// Spec text of the public half of a keypair derived from `seed`.
pub open spec fn seed_public_key(seed: nat) -> Seq<char> {
    "pk-"@ + decimal_of(seed)
}

impl Keypair {
    /// Derives a fresh printable keypair from caller-supplied entropy.
    /// The derivation is deterministic in `seed`.
    pub fn generate(seed: u64) -> (r: Keypair)
        ensures
            r@.private_key == seed_private_key(seed as nat),
            r@.public_key == seed_public_key(seed as nat),
            r@.wf(),
    {
        let digits = decimal_string(seed);
        let mut sk = String::from_str("sk-");
        sk.append(digits.as_str());
        let mut pk = String::from_str("pk-");
        pk.append(digits.as_str());
        proof {
            lemma_decimal_digits(seed as nat);
            reveal_strlit("sk-");
            reveal_strlit("pk-");
            assert(no_char("sk-"@, '\n'));
            assert(no_char("pk-"@, '\n'));
            crate::strutil::lemma_no_char_concat("sk-"@, decimal_of(seed as nat), '\n');
            crate::strutil::lemma_no_char_concat("pk-"@, decimal_of(seed as nat), '\n');
        }
        Keypair { private_key: sk, public_key: pk }
    }
}

/// How the keypair of a new identity is chosen: derived afresh from
/// caller-supplied entropy, or handed in ready-made.
pub enum KeypairSource {
    Generate { seed: u64 },
    Provided { keypair: Keypair },
}

/// The keypair a given source stands for.
pub open spec fn source_keypair(s: KeypairSource) -> KeypairView {
    match s {
        KeypairSource::Generate { seed } => KeypairView {
            private_key: seed_private_key(seed as nat),
            public_key: seed_public_key(seed as nat),
        },
        KeypairSource::Provided { keypair } => keypair@,
    }
}

/// Whether `s` fits on one credential line.
pub fn line_clean(s: &str) -> (r: bool)
    ensures
        r == line_text_ok(s@),
{
    proof {
        lemma_first_index_props(s@, '\n');
    }
    match crate::strutil::find_char(s, '\n') {
        Some(_) => false,
        None => true,
    }
}

impl Identity {
    /// Makes a local identity from a chosen subscription id and a keypair
    /// source. No remote call is made; only the textual format of the parts
    /// is checked, and a malformed part is the one reason this fails.
    pub fn create(subscription_id: String, source: KeypairSource) -> (r: Result<
        Identity,
        SxtError,
    >)
        ensures
            match r {
                Ok(id) => valid_subscription_id(subscription_id@) && source_keypair(source).wf()
                    && id@.subscription_id == subscription_id@ && id@.keypair == source_keypair(
                    source,
                ),
                Err(e) => e == SxtError::ConfigError && !(valid_subscription_id(subscription_id@)
                    && source_keypair(source).wf()),
            },
    {
        let keypair = match source {
            KeypairSource::Generate { seed } => Keypair::generate(seed),
            KeypairSource::Provided { keypair } => keypair,
        };
        if subscription_id.as_str().is_empty() {
            return Err(SxtError::ConfigError);
        }
        if !line_clean(subscription_id.as_str()) {
            return Err(SxtError::ConfigError);
        }
        if !line_clean(keypair.private_key.as_str()) || !line_clean(keypair.public_key.as_str()) {
            return Err(SxtError::ConfigError);
        }
        Ok(Identity { subscription_id, keypair })
    }

    /// Spec text of the proof of possession presented for message `m`:
    /// recomputable by the service from the registered public key.
    pub open spec fn signature_text(public_key: Seq<char>, m: Seq<char>) -> Seq<char> {
        "sig:"@ + public_key + ":"@ + m
    }

    /// The proof of possession this identity presents for `msg`:
    /// deterministic in the keypair and the message.
    pub fn sign(&self, msg: &str) -> (r: String)
        ensures
            r@ == Identity::signature_text(self@.keypair.public_key, msg@),
    {
        let mut s = String::from_str("sig:");
        s.append(self.keypair.public_key.as_str());
        s.append(":");
        s.append(msg);
        proof {
            assert(s@ =~= Identity::signature_text(self@.keypair.public_key, msg@));
        }
        s
    }
}

} // verus!
