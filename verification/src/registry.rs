//! The coordinator's list of storage providers, and the random choices made
//! around it: a provider's id, and which provider a client is sent to.
use vstd::prelude::*;
use vstd::utf8::encode_utf8;

use rand::Rng;

use crate::protocol::{
    coordinator_request_of, lemma_offer_message_read_back, lemma_register_message_read_back,
    offer_message, offer_message_spec, offer_of, register_message_spec, CoordinatorRequestModel,
    Provider, ProviderModel,
};
use crate::text::{decimal, is_blank, is_token, lemma_decimal_is_token, u64_to_decimal};

verus! {

/// Largest number that a provider picks as its id.
pub const MAX_PROVIDER_ID: u16 = 65535;

/// The providers that have registered with the coordinator, in order of registration.
pub struct Providers {
    pub providers: Vec<Provider>,
}

impl View for Providers {
    type V = Seq<ProviderModel>;

    open spec fn view(&self) -> Seq<ProviderModel> {
        self.providers@.map_values(|p: Provider| p@)
    }
}

/// `rand::thread_rng().gen_range(0..len)`. Claimed: a position below `len`;
/// which one is left to chance. (`gen_range` panics on an empty range, so
/// `len` must be positive.)
#[verifier::external_body]
fn random_below(len: usize) -> (i: usize)
    requires
        len > 0,
    ensures
        i < len,
{
    rand::thread_rng().gen_range(0..len)
}

/// `rand::thread_rng().gen_range(0..=MAX_PROVIDER_ID)`: any `u16` may come back.
#[verifier::external_body]
fn random_provider_number() -> (n: u16) {
    rand::thread_rng().gen_range(0..=MAX_PROVIDER_ID)
}

/// A fresh provider id: the decimal numeral of a random number up to
/// [`MAX_PROVIDER_ID`], hence a single word.
pub fn new_provider_id() -> (id: String)
    ensures
        exists|n: u16| id@ == decimal(n as nat),
        is_token(id@),
{
    let n = random_provider_number();
    let id = u64_to_decimal(n as u64);
    proof {
        lemma_decimal_is_token(n as nat);
        assert(id@ == decimal(n as nat));
    }
    id
}

impl Providers {
    /// No providers.
    pub fn new() -> (list: Providers)
        ensures
            list@ == Seq::<ProviderModel>::empty(),
    {
        let list = Providers { providers: Vec::new() };
        assert(list@ =~= Seq::<ProviderModel>::empty());
        list
    }

    /// Adds `provider` after all the others.
    pub fn add_provider(&mut self, provider: Provider)
        ensures
            final(self)@ == old(self)@.push(provider@),
    {
        let ghost before = self.providers@;
        self.providers.push(provider);
        assert(self.providers@.map_values(|p: Provider| p@) =~= before.map_values(
            |p: Provider| p@,
        ).push(provider@));
    }

    /// The coordinator's answer to a lookup: the offer of one provider of the
    /// list, picked at random.
    pub fn offer_random_provider(&self) -> (answer: String)
        requires
            self@.len() > 0,
        ensures
            exists|i: int| 0 <= i < self@.len() && answer@ == offer_message_spec(#[trigger] self@[i]),
    {
        let i = random_below(self.providers.len());
        let answer = offer_message(&self.providers[i]);
        assert(answer@ == offer_message_spec(self@[i as int]));
        answer
    }
}

/// A provider that registers with one-word fields joins the coordinator's
/// list as itself (its address being `<ip>:<port>`, whitespace after the port
/// such as the line break left by reading it dropped), and when the
/// coordinator offers it, a client reads back exactly that provider.
pub proof fn lemma_registered_provider_reaches_clients(
    list: Seq<ProviderModel>,
    id: Seq<char>,
    ip: Seq<char>,
    port: Seq<char>,
    line_end: Seq<char>,
    btc_addr: Seq<char>,
)
    requires
        is_token(id),
        is_token(ip),
        is_token(port),
        is_blank(line_end),
        is_token(btc_addr),
    ensures
        ({
            let p = ProviderModel { id, ip_addr: ip + seq![':'] + port, btc_addr };
            &&& coordinator_request_of(
                encode_utf8(register_message_spec(id, ip, port + line_end, btc_addr)),
            )
                == Some(CoordinatorRequestModel::Register(p))
            &&& list.push(p)[list.len() as int] == p
            &&& offer_of(encode_utf8(offer_message_spec(list.push(p)[list.len() as int]))) == Some(p)
        }),
{
    let addr = ip + seq![':'] + port;
    lemma_register_message_read_back(id, ip, port, line_end, btc_addr);
    assert forall|i: int| 0 <= i < addr.len() implies !crate::text::is_ascii_whitespace(
        #[trigger] addr[i],
    ) by {
        if i < ip.len() {
            assert(addr[i] == ip[i]);
        } else if i > ip.len() {
            assert(addr[i] == port[i - ip.len() - 1]);
        }
    }
    let p = ProviderModel { id, ip_addr: addr, btc_addr };
    lemma_offer_message_read_back(p);
}

} // verus!
