//! TLS certificate manager.
//!
//! Several domains are served by means of SNI (Server Name Indication): each has
//! a certificate of its own, and the right one is picked by the name that the
//! client asks for.
use crate::text::ascii_lower;
use rustls::crypto::ring;
use rustls::pki_types::{CertificateDer, PrivateKeyDer};
use rustls::server::ResolvesServerCertUsingSni;
use rustls::sign::CertifiedKey;
use rustls::ServerConfig;
use std::sync::Arc;
use tokio_rustls::TlsAcceptor;
use vstd::prelude::*;
use vstd::string::*;
use vstd::utf8::*;

verus! {

/// A certificate chain and the key that belongs to it, ready for use.
#[verifier::external_type_specification]
#[verifier::external_body]
pub struct ExCertifiedKey(CertifiedKey);

/// The certificates and keys of several names.
#[verifier::external_type_specification]
#[verifier::external_body]
pub struct ExResolver(ResolvesServerCertUsingSni);

/// What shakes hands with clients.
#[verifier::external_type_specification]
#[verifier::external_body]
pub struct ExTlsAcceptor(TlsAcceptor);

/// A private key in DER, by the format that it is in.
#[derive(Debug, Clone, PartialEq, Eq)]
pub enum PrivateKey {
    /// PKCS#8
    Pkcs8(Vec<u8>),
    /// PKCS#1 (RSA)
    Pkcs1(Vec<u8>),
    /// SEC1 (EC)
    Sec1(Vec<u8>),
}

/// A private key in DER, by the format that it is in.
pub enum KeyView {
    Pkcs8(Seq<u8>),
    Pkcs1(Seq<u8>),
    Sec1(Seq<u8>),
}

impl PrivateKey {
    /// The key.
    pub open spec fn view(&self) -> KeyView {
        match self {
            PrivateKey::Pkcs8(der) => KeyView::Pkcs8(der@),
            PrivateKey::Pkcs1(der) => KeyView::Pkcs1(der@),
            PrivateKey::Sec1(der) => KeyView::Sec1(der@),
        }
    }
}

/// Why a domain cannot be served with TLS.
#[derive(Debug, Clone, PartialEq, Eq)]
pub enum SslError {
    /// The certificate file is no PEM.
    BadCertificates,
    /// There is no certificate in the certificate file.
    NoCertificates,
    /// There is no private key in the key file.
    NoKey,
    /// The private key of the domain cannot be used.
    UnsupportedKey(String),
    /// The certificate of the domain was not made for its name.
    WrongName(String),
}

/// The bytes of each item.
pub open spec fn items(v: Seq<Vec<u8>>) -> Seq<Seq<u8>> {
    Seq::new(v.len(), |i: int| v[i]@)
}

/// The bytes of each item, if there are any.
pub open spec fn items_of(v: Option<Vec<Vec<u8>>>) -> Option<Seq<Seq<u8>>> {
    match v {
        Some(list) => Some(items(list@)),
        None => None,
    }
}

/// The certificates of a PEM file as `rustls_pemfile` reads them, nothing if it
/// is faulty.
pub uninterp spec fn pem_certs(pem: Seq<u8>) -> Option<Seq<Seq<u8>>>;

/// The PKCS#8 keys of a PEM file as `rustls_pemfile` reads them, nothing if it is
/// faulty.
pub uninterp spec fn pem_pkcs8(pem: Seq<u8>) -> Option<Seq<Seq<u8>>>;

/// The PKCS#1 keys of a PEM file as `rustls_pemfile` reads them, nothing if it is
/// faulty.
pub uninterp spec fn pem_pkcs1(pem: Seq<u8>) -> Option<Seq<Seq<u8>>>;

/// The SEC1 keys of a PEM file as `rustls_pemfile` reads them, nothing if it is
/// faulty.
pub uninterp spec fn pem_sec1(pem: Seq<u8>) -> Option<Seq<Seq<u8>>>;

/// `rustls_pemfile::certs` finds the certificates of a PEM file, named
/// [`pem_certs`].
#[verifier::external_body]
fn read_certs(pem: &Vec<u8>) -> (r: Option<Vec<Vec<u8>>>)
    ensures
        items_of(r) == pem_certs(pem@),
{
    let found: Result<Vec<_>, _> = rustls_pemfile::certs(&mut pem.as_slice()).collect();
    found.ok().map(|list| list.iter().map(|c| c.as_ref().to_vec()).collect())
}

/// `rustls_pemfile::pkcs8_private_keys` finds the PKCS#8 keys of a PEM file, named
/// [`pem_pkcs8`].
#[verifier::external_body]
fn read_pkcs8(pem: &Vec<u8>) -> (r: Option<Vec<Vec<u8>>>)
    ensures
        items_of(r) == pem_pkcs8(pem@),
{
    let found: Result<Vec<_>, _> =
        rustls_pemfile::pkcs8_private_keys(&mut pem.as_slice()).collect();
    found.ok().map(|list| list.iter().map(|k| k.secret_pkcs8_der().to_vec()).collect())
}

/// `rustls_pemfile::rsa_private_keys` finds the PKCS#1 keys of a PEM file, named
/// [`pem_pkcs1`].
#[verifier::external_body]
fn read_pkcs1(pem: &Vec<u8>) -> (r: Option<Vec<Vec<u8>>>)
    ensures
        items_of(r) == pem_pkcs1(pem@),
{
    let found: Result<Vec<_>, _> = rustls_pemfile::rsa_private_keys(&mut pem.as_slice()).collect();
    found.ok().map(|list| list.iter().map(|k| k.secret_pkcs1_der().to_vec()).collect())
}

/// `rustls_pemfile::ec_private_keys` finds the SEC1 keys of a PEM file, named
/// [`pem_sec1`].
#[verifier::external_body]
fn read_sec1(pem: &Vec<u8>) -> (r: Option<Vec<Vec<u8>>>)
    ensures
        items_of(r) == pem_sec1(pem@),
{
    let found: Result<Vec<_>, _> = rustls_pemfile::ec_private_keys(&mut pem.as_slice()).collect();
    found.ok().map(|list| list.iter().map(|k| k.secret_sec1_der().to_vec()).collect())
}

/// The chain and the key of a [`CertifiedKey`].
pub uninterp spec fn identity(ck: CertifiedKey) -> (Seq<Seq<u8>>, KeyView);

/// The chains and keys of a resolver, by the names that clients ask for.
pub uninterp spec fn identities(r: ResolvesServerCertUsingSni) -> Map<
    Seq<char>,
    (Seq<Seq<u8>>, KeyView),
>;

/// Whether `rustls` takes a chain for a name: a DNS name that the first
/// certificate of the chain was made for.
pub uninterp spec fn chain_fits(name: Seq<char>, chain: Seq<Seq<u8>>) -> bool;

/// The chains and keys that an acceptor shows, by the names that clients ask for.
pub uninterp spec fn shown_by(a: TlsAcceptor) -> Map<Seq<char>, (Seq<Seq<u8>>, KeyView)>;

/// The protocols that an acceptor offers.
pub uninterp spec fn offered_by(a: TlsAcceptor) -> Seq<Seq<u8>>;

/// Whether `ring::sign::any_supported_type` takes a private key, nothing where that is
/// left to chance: an ECDSA key needs random numbers to be made ready.
pub uninterp spec fn ring_takes(key: KeyView) -> Option<bool>;

/// `ring::sign::any_supported_type` makes a signing key of a private key, or
/// fails; `CertifiedKey::new` puts it together with a chain. Whether it fails is named
/// [`ring_takes`]: it depends on the key alone, unless that is an ECDSA key, which
/// cannot be made ready when the system gives no random numbers. A PKCS#1 key is never
/// one.
#[verifier::external_body]
fn certify(chain: &Vec<Vec<u8>>, key: &PrivateKey) -> (r: Option<CertifiedKey>)
    ensures
        r matches Some(ck) ==> identity(ck) == (items(chain@), key@),
        ring_takes(key@) matches Some(taken) ==> (r is Some <==> taken),
        key@ is Pkcs1 ==> ring_takes(key@) == Some(r is Some),
{
    let der = match key {
        PrivateKey::Pkcs8(k) => PrivateKeyDer::Pkcs8(k.clone().into()),
        PrivateKey::Pkcs1(k) => PrivateKeyDer::Pkcs1(k.clone().into()),
        PrivateKey::Sec1(k) => PrivateKeyDer::Sec1(k.clone().into()),
    };
    let certs = chain.iter().map(|c| CertificateDer::from(c.clone())).collect();
    ring::sign::any_supported_type(&der).ok().map(|k| CertifiedKey::new(certs, k))
}

/// `ResolvesServerCertUsingSni::new` makes a resolver that knows no name.
#[verifier::external_body]
fn no_identities() -> (r: ResolvesServerCertUsingSni)
    ensures
        identities(r) =~= Map::empty(),
{
    ResolvesServerCertUsingSni::new()
}

/// `ResolvesServerCertUsingSni::add` puts a chain and a key under a name in lower
/// case, in place of those that are there. It fails, and changes nothing, where the
/// chain does not fit the name, which is named [`chain_fits`].
#[verifier::external_body]
fn add_identity(r: &mut ResolvesServerCertUsingSni, name: &str, ck: CertifiedKey) -> (done: bool)
    ensures
        done == chain_fits(name@, identity(ck).0),
        done ==> identities(*final(r)) == identities(*old(r)).insert(
            ascii_lower(name@),
            identity(ck),
        ),
        !done ==> identities(*final(r)) == identities(*old(r)),
{
    r.add(name, ck).is_ok()
}

/// `ServerConfig::builder_with_provider`, with the safe default protocol versions,
/// no client authentication and a resolver, and `TlsAcceptor::from` make an acceptor
/// that shows the chains and keys of the resolver and offers the given protocols.
#[verifier::external_body]
fn accept_with(r: ResolvesServerCertUsingSni, protocols: Vec<Vec<u8>>) -> (a: TlsAcceptor)
    ensures
        shown_by(a) == identities(r),
        offered_by(a) == items(protocols@),
{
    let mut cfg = ServerConfig::builder_with_provider(Arc::new(ring::default_provider()))
        .with_safe_default_protocol_versions()
        .unwrap()
        .with_no_client_auth()
        .with_cert_resolver(Arc::new(r));
    cfg.alpn_protocols = protocols;
    TlsAcceptor::from(Arc::new(cfg))
}

/// The first item of a list, if there is one.
pub open spec fn first_item(list: Option<Seq<Seq<u8>>>) -> Option<Seq<u8>> {
    match list {
        Some(s) => if s.len() > 0 {
            Some(s[0])
        } else {
            None
        },
        None => None,
    }
}

/// The key that is used of those that were found: the first PKCS#8 key, or else
/// the first PKCS#1 key, or else the first SEC1 key. A faulty file holds none.
pub open spec fn chosen_key(
    pkcs8: Option<Seq<Seq<u8>>>,
    pkcs1: Option<Seq<Seq<u8>>>,
    sec1: Option<Seq<Seq<u8>>>,
) -> Option<KeyView> {
    match first_item(pkcs8) {
        Some(der) => Some(KeyView::Pkcs8(der)),
        None => match first_item(pkcs1) {
            Some(der) => Some(KeyView::Pkcs1(der)),
            None => match first_item(sec1) {
                Some(der) => Some(KeyView::Sec1(der)),
                None => None,
            },
        },
    }
}

/// The key of a PEM file.
pub open spec fn key_in(pem: Seq<u8>) -> Option<KeyView> {
    chosen_key(pem_pkcs8(pem), pem_pkcs1(pem), pem_sec1(pem))
}

/// The first item of a list, if there is one.
fn take_first(list: &Option<Vec<Vec<u8>>>) -> (r: Option<Vec<u8>>)
    ensures
        r is Some <==> first_item(items_of(*list)) is Some,
        r matches Some(der) ==> first_item(items_of(*list)) == Some(der@),
{
    match list {
        Some(v) => if v.len() > 0 {
            let first = v[0].clone();
            assert(first@ =~= v@[0]@);
            Some(first)
        } else {
            None
        },
        None => None,
    }
}

/// The key that is used of those that were found.
pub fn choose_key(
    pkcs8: &Option<Vec<Vec<u8>>>,
    pkcs1: &Option<Vec<Vec<u8>>>,
    sec1: &Option<Vec<Vec<u8>>>,
) -> (r: Result<PrivateKey, SslError>)
    ensures
        r is Ok <==> chosen_key(items_of(*pkcs8), items_of(*pkcs1), items_of(*sec1)) is Some,
        r matches Ok(k) ==> chosen_key(items_of(*pkcs8), items_of(*pkcs1), items_of(*sec1))
            == Some(k@),
        r matches Err(e) ==> e == SslError::NoKey,
{
    if let Some(der) = take_first(pkcs8) {
        return Ok(PrivateKey::Pkcs8(der));
    }
    if let Some(der) = take_first(pkcs1) {
        return Ok(PrivateKey::Pkcs1(der));
    }
    if let Some(der) = take_first(sec1) {
        return Ok(PrivateKey::Sec1(der));
    }
    Err(SslError::NoKey)
}

/// The key of a PEM file.
pub fn load_key(pem: &Vec<u8>) -> (r: Result<PrivateKey, SslError>)
    ensures
        r is Ok <==> key_in(pem@) is Some,
        r matches Ok(k) ==> key_in(pem@) == Some(k@),
        r matches Err(e) ==> e == SslError::NoKey,
{
    choose_key(&read_pkcs8(pem), &read_pkcs1(pem), &read_sec1(pem))
}

/// The chain of a certificate file in which these certificates were found.
pub fn choose_chain(found: Option<Vec<Vec<u8>>>) -> (r: Result<Vec<Vec<u8>>, SslError>)
    ensures
        found is None ==> r == Err::<Vec<Vec<u8>>, SslError>(SslError::BadCertificates),
        found matches Some(list) ==> if list@.len() == 0 {
            r == Err::<Vec<Vec<u8>>, SslError>(SslError::NoCertificates)
        } else {
            r == Ok::<Vec<Vec<u8>>, SslError>(list)
        },
{
    match found {
        None => Err(SslError::BadCertificates),
        Some(list) => if list.len() == 0 {
            Err(SslError::NoCertificates)
        } else {
            Ok(list)
        },
    }
}

/// The chain of a certificate file.
pub fn load_chain(pem: &Vec<u8>) -> (r: Result<Vec<Vec<u8>>, SslError>)
    ensures
        match pem_certs(pem@) {
            None => r matches Err(e) && e == SslError::BadCertificates,
            Some(list) => if list.len() == 0 {
                r matches Err(e) && e == SslError::NoCertificates
            } else {
                r matches Ok(chain) && items(chain@) == list
            },
        },
{
    let found = read_certs(pem);
    choose_chain(found)
}

/// What a certificate file and a key file hold, and what is wrong with them.
pub open spec fn loaded(
    certs: Option<Seq<Seq<u8>>>,
    key: Option<KeyView>,
) -> Result<(Seq<Seq<u8>>, KeyView), SslError> {
    match certs {
        None => Err(SslError::BadCertificates),
        Some(chain) => if chain.len() == 0 {
            Err(SslError::NoCertificates)
        } else {
            match key {
                None => Err(SslError::NoKey),
                Some(k) => Ok((chain, k)),
            }
        },
    }
}

/// Loads the chain and the key of a domain from the contents of their files.
pub fn load_cert_and_key(cert_pem: &Vec<u8>, key_pem: &Vec<u8>) -> (r: Result<
    (Vec<Vec<u8>>, PrivateKey),
    SslError,
>)
    ensures
        match loaded(pem_certs(cert_pem@), key_in(key_pem@)) {
            Ok((chain, key)) => r matches Ok((c, k)) && items(c@) == chain && k@ == key,
            Err(wrong) => r matches Err(e) && e == wrong,
        },
{
    match load_chain(cert_pem) {
        Err(e) => Err(e),
        Ok(chain) => match load_key(key_pem) {
            Err(e) => Err(e),
            Ok(key) => Ok((chain, key)),
        },
    }
}

/// The chain and the key of a domain.
#[verifier::ext_equal]
pub struct CertView {
    pub name: Seq<char>,
    pub chain: Seq<Seq<u8>>,
    pub key: KeyView,
}

/// What the manager knows.
#[verifier::ext_equal]
pub struct SslView {
    /// The domains, in the order in which they were added
    pub domains: Seq<CertView>,
    /// The acceptor, once it was built
    pub acceptor: Option<TlsAcceptor>,
}

/// The chains and keys of the first `n` domains, by the names that clients ask for.
pub open spec fn by_names(domains: Seq<CertView>, n: nat) -> Map<
    Seq<char>,
    (Seq<Seq<u8>>, KeyView),
>
    decreases n,
{
    if n == 0 {
        Map::empty()
    } else {
        let d = domains[n - 1];
        by_names(domains, (n - 1) as nat).insert(ascii_lower(d.name), (d.chain, d.key))
    }
}

/// The chain and the key of a domain.
#[derive(Debug)]
pub struct DomainCert {
    /// The name of the domain
    pub name: String,
    /// Its certificates, its own first
    pub chain: Vec<Vec<u8>>,
    /// Its key
    pub key: PrivateKey,
}

impl DomainCert {
    /// The chain and the key.
    pub open spec fn view(&self) -> CertView {
        CertView { name: self.name@, chain: items(self.chain@), key: self.key@ }
    }
}

/// The chains and the keys of domains.
pub open spec fn certs_view(domains: Seq<DomainCert>) -> Seq<CertView> {
    Seq::new(domains.len(), |i: int| domains[i]@)
}

/// Whether `key` was made ready for a domain: it is made of its chain and its key, and
/// missing only where the key is not taken.
pub open spec fn made_for(d: CertView, key: Option<CertifiedKey>) -> bool {
    &&& key matches Some(ck) ==> identity(ck) == (d.chain, d.key)
    &&& ring_takes(d.key) matches Some(taken) ==> (key is Some <==> taken)
    &&& d.key is Pkcs1 ==> ring_takes(d.key) == Some(key is Some)
}

/// Whether `keys` were made ready for `domains`, one for each.
pub open spec fn prepared(domains: Seq<CertView>, keys: Seq<Option<CertifiedKey>>) -> bool {
    &&& keys.len() == domains.len()
    &&& forall|i: int| 0 <= i < keys.len() ==> made_for(domains[i], #[trigger] keys[i])
}

/// Whether nothing about a domain is left to chance.
pub open spec fn settled(d: CertView) -> bool {
    d.key is Pkcs1 || ring_takes(d.key) is Some
}

/// Whether a domain can be served for certain: its key is taken, and its chain fits its
/// name.
pub open spec fn servable(d: CertView) -> bool {
    ring_takes(d.key) == Some(true) && chain_fits(d.name, d.chain)
}

/// Whether a domain can never be served: its key is not taken, or its chain does not
/// fit its name.
pub open spec fn hopeless(d: CertView) -> bool {
    ring_takes(d.key) == Some(false) || !chain_fits(d.name, d.chain)
}

/// Whether domain number `i` has a key that can be used and a chain that fits its name.
pub open spec fn sound(
    domains: Seq<CertView>,
    keys: Seq<Option<CertifiedKey>>,
    i: int,
) -> bool {
    keys[i] is Some && chain_fits(domains[i].name, domains[i].chain)
}

/// Whether all domains are sound.
pub open spec fn all_sound(domains: Seq<CertView>, keys: Seq<Option<CertifiedKey>>) -> bool {
    forall|i: int| 0 <= i < domains.len() ==> #[trigger] sound(domains, keys, i)
}

/// Whether domain number `i` is the first that is not sound, and `e` tells what is
/// wrong with it.
pub open spec fn at_fault(
    domains: Seq<CertView>,
    keys: Seq<Option<CertifiedKey>>,
    i: int,
    e: SslError,
) -> bool {
    &&& 0 <= i < domains.len()
    &&& forall|j: int| 0 <= j < i ==> #[trigger] sound(domains, keys, j)
    &&& match e {
        SslError::UnsupportedKey(name) => name@ == domains[i].name && keys[i] is None,
        SslError::WrongName(name) => name@ == domains[i].name && keys[i] is Some && !chain_fits(
            domains[i].name,
            domains[i].chain,
        ),
        _ => false,
    }
}

/// Makes the keys of domains ready for use.
pub fn prepare(domains: &Vec<DomainCert>) -> (keys: Vec<Option<CertifiedKey>>)
    ensures
        prepared(certs_view(domains@), keys@),
{
    let mut keys: Vec<Option<CertifiedKey>> = Vec::new();
    let ghost known = certs_view(domains@);
    let mut i: usize = 0;
    while i < domains.len()
        invariant
            0 <= i <= domains@.len(),
            known == certs_view(domains@),
            prepared(known.take(i as int), keys@),
        decreases domains@.len() - i,
    {
        let ghost before = keys@;
        let key = certify(&domains[i].chain, &domains[i].key);
        assert(known[i as int] == domains@[i as int]@);
        keys.push(key);
        assert forall|j: int| 0 <= j < keys@.len() implies made_for(
            known.take(i + 1)[j],
            #[trigger] keys@[j],
        ) by {
            if j < i {
                assert(keys@[j] == before[j]);
                assert(known.take(i as int)[j] == known[j]);
            }
        }
        i += 1;
    }
    assert(known.take(i as int) =~= known);
    keys
}

/// Puts the acceptor together from domains and the keys that were made ready for them.
/// The first domain that is not sound is told.
pub fn assemble(domains: &Vec<DomainCert>, keys: Vec<Option<CertifiedKey>>) -> (r: Result<
    TlsAcceptor,
    SslError,
>)
    requires
        prepared(certs_view(domains@), keys@),
    ensures
        r is Ok <==> all_sound(certs_view(domains@), keys@),
        r matches Ok(a) ==> shown_by(a) == by_names(certs_view(domains@), domains@.len())
            && offered_by(a) == seq![encode_utf8("h2"@), encode_utf8("http/1.1"@)],
        r matches Err(e) ==> exists|i: int| #[trigger]
            at_fault(certs_view(domains@), keys@, i, e),
{
    let ghost known = certs_view(domains@);
    let ghost given = keys@;
    let mut rest = keys;
    let mut resolver = no_identities();
    let mut i: usize = 0;
    assert(rest@ =~= given.skip(0));
    while i < domains.len()
        invariant
            0 <= i <= domains@.len(),
            known == certs_view(domains@),
            known.len() == domains@.len(),
            given == keys@,
            prepared(known, given),
            rest@ == given.skip(i as int),
            identities(resolver) == by_names(known, i as nat),
            forall|j: int| 0 <= j < i ==> #[trigger] sound(known, given, j),
        decreases domains@.len() - i,
    {
        assert(known[i as int] == domains@[i as int]@);
        let key = rest.remove(0);
        assert(key == given[i as int]);
        assert(rest@ =~= given.skip(i + 1));
        let outcome = match key {
            Some(ck) => {
                let fits = add_identity(&mut resolver, domains[i].name.as_str(), ck);
                judge_identity(domains[i].name.as_str(), true, fits)
            },
            None => judge_identity(domains[i].name.as_str(), false, false),
        };
        if let Err(e) = outcome {
            assert(!sound(known, given, i as int));
            assert(at_fault(known, given, i as int, e));
            return Err(e);
        }
        assert(sound(known, given, i as int));
        i += 1;
    }
    let mut protocols: Vec<Vec<u8>> = Vec::new();
    protocols.push("h2".as_bytes_vec());
    protocols.push("http/1.1".as_bytes_vec());
    assert(items(protocols@) =~= seq![encode_utf8("h2"@), encode_utf8("http/1.1"@)]);
    Ok(accept_with(resolver, protocols))
}

/// The certificates of all domains.
pub struct SslManager {
    domains: Vec<DomainCert>,
    acceptor: Option<TlsAcceptor>,
}

impl SslManager {
    /// What the manager knows.
    pub closed spec fn view(&self) -> SslView {
        SslView {
            domains: certs_view(self.domains@),
            acceptor: self.acceptor,
        }
    }

    /// A manager without any domain.
    pub fn new() -> (r: Self)
        ensures
            r@ == (SslView { domains: Seq::empty(), acceptor: None }),
    {
        let r = SslManager { domains: Vec::new(), acceptor: None };
        assert(r@.domains =~= Seq::empty());
        r
    }

    /// Registers the certificate and the key of a domain, from the contents of
    /// their files.
    pub fn add_domain(&mut self, domain: String, cert_pem: &Vec<u8>, key_pem: &Vec<u8>) -> (r:
        Result<(), SslError>)
        ensures
            match loaded(pem_certs(cert_pem@), key_in(key_pem@)) {
                Ok((chain, key)) => r is Ok && final(self)@ == (SslView {
                    domains: old(self)@.domains.push(CertView { name: domain@, chain, key }),
                    ..old(self)@
                }),
                Err(wrong) => r == Err::<(), SslError>(wrong) && final(self)@ == old(self)@,
            },
    {
        let ghost start = self@;
        match load_cert_and_key(cert_pem, key_pem) {
            Err(e) => Err(e),
            Ok((chain, key)) => {
                let d = DomainCert { name: domain, chain, key };
                self.domains.push(d);
                assert(self@.domains =~= start.domains.push(d@));
                Ok(())
            },
        }
    }

    /// Builds the acceptor. Call once after all domains are added.
    ///
    /// Whether a private key can be used is for the cryptography to say: see
    /// [`prepare`]. What is built of the keys is settled by [`assemble`]. Where a domain
    /// is at fault, nothing is built. The outcome is left open only where all that may be
    /// wrong is that there are no random numbers for an ECDSA key.
    pub fn build(&mut self) -> (r: Result<(), SslError>)
        ensures
            final(self)@.domains == old(self)@.domains,
            (forall|i: int|
                0 <= i < old(self)@.domains.len() ==> servable(#[trigger] old(self)@.domains[i]))
                ==> r is Ok,
            (exists|i: int|
                0 <= i < old(self)@.domains.len() && hopeless(#[trigger] old(self)@.domains[i]))
                ==> r is Err,
            (forall|i: int|
                0 <= i < old(self)@.domains.len() ==> settled(#[trigger] old(self)@.domains[i]))
                ==> (r is Ok <==> forall|i: int|
                0 <= i < old(self)@.domains.len() ==> servable(#[trigger] old(self)@.domains[i])),
            r is Ok ==> (final(self)@.acceptor matches Some(a) && shown_by(a) == by_names(
                old(self)@.domains,
                old(self)@.domains.len(),
            ) && offered_by(a) == seq![encode_utf8("h2"@), encode_utf8("http/1.1"@)]),
            r is Err ==> final(self)@ == old(self)@,
            exists|keys: Seq<Option<CertifiedKey>>|
                {
                    &&& #[trigger] prepared(old(self)@.domains, keys)
                    &&& r is Ok <==> all_sound(old(self)@.domains, keys)
                    &&& r matches Err(e) ==> exists|i: int| #[trigger]
                        at_fault(old(self)@.domains, keys, i, e)
                },
    {
        let keys = prepare(&self.domains);
        let ghost made = keys@;
        let ghost known = self@.domains;
        proof {
            assert(prepared(known, made));
            assert forall|i: int| 0 <= i < known.len() implies {
                &&& servable(#[trigger] known[i]) ==> sound(known, made, i)
                &&& hopeless(known[i]) ==> !sound(known, made, i)
                &&& settled(known[i]) && !servable(known[i]) ==> hopeless(known[i])
            } by {
                assert(made_for(known[i], made[i]));
            }
        }
        match assemble(&self.domains, keys) {
            Ok(a) => {
                self.acceptor = Some(a);
                Ok(())
            },
            Err(e) => Err(e),
        }
    }

    /// Whether any domain was added.
    pub fn has_domains(&self) -> (r: bool)
        ensures
            r == (self@.domains.len() > 0),
    {
        self.domains.len() > 0
    }

    /// The acceptor. [`SslManager::build`] must have been called.
    pub fn acceptor(&self) -> (r: &TlsAcceptor)
        requires
            self@.acceptor is Some,
        ensures
            self@.acceptor == Some(*r),
    {
        self.acceptor.as_ref().unwrap()
    }

    /// Whether the acceptor was built.
    pub fn is_built(&self) -> (r: bool)
        ensures
            r == (self@.acceptor is Some),
    {
        self.acceptor.is_some()
    }
}

/// What is wrong with a domain whose key can be used or not, and whose chain fits its
/// name or not.
pub fn judge_identity(domain: &str, usable: bool, fits: bool) -> (r: Result<(), SslError>)
    ensures
        r is Ok <==> usable && fits,
        r matches Err(e) ==> match e {
            SslError::UnsupportedKey(name) => !usable && name@ == domain@,
            SslError::WrongName(name) => usable && !fits && name@ == domain@,
            _ => false,
        },
{
    if !usable {
        Err(SslError::UnsupportedKey(domain.to_string()))
    } else if !fits {
        Err(SslError::WrongName(domain.to_string()))
    } else {
        Ok(())
    }
}

/// A client that asks for the name of a domain is shown the chain and the key of
/// that domain: of those that were added under the name, the last.
pub proof fn law_each_domain_has_its_certificate(domains: Seq<CertView>, n: nat, i: int)
    requires
        0 <= i < n <= domains.len(),
        forall|j: int|
            i < j < n ==> ascii_lower((#[trigger] domains[j]).name) != ascii_lower(
                domains[i].name,
            ),
    ensures
        by_names(domains, n).contains_key(ascii_lower(domains[i].name)),
        by_names(domains, n)[ascii_lower(domains[i].name)] == (domains[i].chain, domains[i].key),
    decreases n,
{
    if i < n - 1 {
        law_each_domain_has_its_certificate(domains, (n - 1) as nat, i);
        assert(ascii_lower(domains[n - 1].name) != ascii_lower(domains[i].name));
    }
}

/// Of the keys in a file the first in PKCS#8 is used. Only where there is none, or they
/// cannot be read, is the first in PKCS#1 used, and only then the first in SEC1.
pub proof fn law_key_formats_come_in_order(
    first: Seq<u8>,
    more: Seq<Seq<u8>>,
    none: Option<Seq<Seq<u8>>>,
    nothing: Option<Seq<Seq<u8>>>,
    any: Option<Seq<Seq<u8>>>,
    other: Option<Seq<Seq<u8>>>,
)
    requires
        none matches Some(list) ==> list.len() == 0,
        nothing matches Some(list) ==> list.len() == 0,
    ensures
        chosen_key(Some(seq![first] + more), any, other) == Some(KeyView::Pkcs8(first)),
        chosen_key(none, Some(seq![first] + more), other) == Some(KeyView::Pkcs1(first)),
        chosen_key(none, nothing, Some(seq![first] + more)) == Some(KeyView::Sec1(first)),
        chosen_key(none, nothing, none) is None,
        chosen_key(none, none, nothing) is None,
{
}

/// A domain gets the whole chain of its file and its key, if there is at least one
/// certificate and a key. What is missing is told, certificates first.
pub proof fn law_chain_and_key_are_both_needed(
    certs: Option<Seq<Seq<u8>>>,
    key: Option<KeyView>,
)
    ensures
        match loaded(certs, key) {
            Ok((chain, k)) => certs == Some(chain) && key == Some(k) && chain.len() > 0,
            Err(e) => match e {
                SslError::BadCertificates => certs is None,
                SslError::NoCertificates => certs matches Some(chain) && chain.len() == 0,
                SslError::NoKey => (certs matches Some(chain) && chain.len() > 0) && key is None,
                _ => false,
            },
        },
        loaded(certs, key) is Ok <==> (certs matches Some(chain) && chain.len() > 0) && key is Some,
{
}

/// A name that no domain has is shown nothing.
pub proof fn law_other_names_are_shown_nothing(domains: Seq<CertView>, n: nat, name: Seq<char>)
    requires
        n <= domains.len(),
        forall|j: int| 0 <= j < n ==> ascii_lower((#[trigger] domains[j]).name) != name,
    ensures
        !by_names(domains, n).contains_key(name),
    decreases n,
{
    if n > 0 {
        assert(ascii_lower(domains[n - 1].name) != name);
        law_other_names_are_shown_nothing(domains, (n - 1) as nat, name);
    }
}

/// A domain is sound exactly if it has a key that can be used and a certificate for its
/// name. The domain at fault is the first that is not, and is told by its name.
pub proof fn law_first_faulty_domain_is_told(
    domains: Seq<CertView>,
    keys: Seq<Option<CertifiedKey>>,
    i: int,
    e: SslError,
    j: int,
)
    requires
        at_fault(domains, keys, i, e),
        0 <= j < domains.len(),
    ensures
        sound(domains, keys, j) <==> keys[j] is Some && chain_fits(
            domains[j].name,
            domains[j].chain,
        ),
        !sound(domains, keys, i),
        j < i ==> sound(domains, keys, j),
        !all_sound(domains, keys),
        match e {
            SslError::UnsupportedKey(name) => keys[i] is None && name@ == domains[i].name,
            SslError::WrongName(name) => keys[i] is Some && name@ == domains[i].name,
            _ => false,
        },
{
    assert(!sound(domains, keys, i));
}

/// A domain whose key is taken and whose chain fits its name is sound, whatever the
/// others are. One whose key is not taken, or whose chain does not fit, never is.
pub proof fn law_servable_domains_are_sound(
    domains: Seq<CertView>,
    keys: Seq<Option<CertifiedKey>>,
    i: int,
)
    requires
        prepared(domains, keys),
        0 <= i < domains.len(),
    ensures
        ring_takes(domains[i].key) == Some(true) && chain_fits(domains[i].name, domains[i].chain)
            ==> sound(domains, keys, i) && servable(domains[i]),
        ring_takes(domains[i].key) == Some(false) || !chain_fits(domains[i].name, domains[i].chain)
            ==> !sound(domains, keys, i) && hopeless(domains[i]),
        keys[i] matches Some(ck) ==> identity(ck) == (domains[i].chain, domains[i].key),
        domains[i].key is Pkcs1 ==> settled(domains[i]),
{
    assert(made_for(domains[i], keys[i]));
}

/// The key of a file is one of those that are found in it, and there is one wherever any
/// is found.
pub proof fn law_key_of_a_file_is_found_in_it(pem: Seq<u8>)
    ensures
        match key_in(pem) {
            Some(KeyView::Pkcs8(der)) => pem_pkcs8(pem) matches Some(list) && list.len() > 0
                && list[0] == der,
            Some(KeyView::Pkcs1(der)) => pem_pkcs1(pem) matches Some(list) && list.len() > 0
                && list[0] == der && first_item(pem_pkcs8(pem)) is None,
            Some(KeyView::Sec1(der)) => pem_sec1(pem) matches Some(list) && list.len() > 0
                && list[0] == der && first_item(pem_pkcs8(pem)) is None && first_item(
                pem_pkcs1(pem),
            ) is None,
            None => (pem_pkcs8(pem) matches Some(list) ==> list.len() == 0) && (pem_pkcs1(
                pem,
            ) matches Some(list) ==> list.len() == 0) && (pem_sec1(pem) matches Some(list)
                ==> list.len() == 0),
        },
{
}

/// All items of a list are taken, in their order, byte for byte, and so are all domains.
pub proof fn law_lists_are_taken_whole(v: Seq<Vec<u8>>, domains: Seq<DomainCert>, i: int)
    ensures
        items(v).len() == v.len(),
        0 <= i < v.len() ==> items(v)[i] == v[i]@,
        certs_view(domains).len() == domains.len(),
        0 <= i < domains.len() ==> certs_view(domains)[i].name == domains[i].name@,
        0 <= i < domains.len() ==> certs_view(domains)[i].key == domains[i].key@,
        0 <= i < domains.len() ==> certs_view(domains)[i].chain == items(domains[i].chain@),
{
}

}
