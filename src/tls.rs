use vstd::prelude::*;

use crate::alpn::{alpn_protos, alpn_wire, HttpVersionPref};

verus! {

/// A bound on the TLS protocol version.
#[derive(Clone, Copy, Debug, PartialEq, Eq, Structural)]
pub enum TlsVersion {
    Tls1_0,
    Tls1_1,
    Tls1_2,
    Tls1_3,
}

/// The engine's identifier of a protocol version.
pub open spec fn engine_version(v: TlsVersion) -> u16 {
    match v {
        TlsVersion::Tls1_0 => 0x0301,
        TlsVersion::Tls1_1 => 0x0302,
        TlsVersion::Tls1_2 => 0x0303,
        TlsVersion::Tls1_3 => 0x0304,
    }
}

/// The engine's identifier of a protocol version.
pub fn ssl_version(v: TlsVersion) -> (r: u16)
    ensures
        r == engine_version(v),
{
    match v {
        TlsVersion::Tls1_0 => 0x0301,
        TlsVersion::Tls1_1 => 0x0302,
        TlsVersion::Tls1_2 => 0x0303,
        TlsVersion::Tls1_3 => 0x0304,
    }
}

/// A certificate-compression algorithm that a client may advertise.
#[derive(Clone, Copy, Debug, PartialEq, Eq, Structural)]
pub enum CertCompressionAlgorithm {
    Zlib,
    Brotli,
    Zstd,
}

/// The algorithm's number on the wire.
pub open spec fn compression_alg_id(a: CertCompressionAlgorithm) -> u16 {
    match a {
        CertCompressionAlgorithm::Zlib => 1,
        CertCompressionAlgorithm::Brotli => 2,
        CertCompressionAlgorithm::Zstd => 3,
    }
}

impl CertCompressionAlgorithm {
    /// The algorithm's number on the wire.
    pub fn id(self) -> (r: u16)
        ensures
            r == compression_alg_id(self),
    {
        match self {
            CertCompressionAlgorithm::Zlib => 1,
            CertCompressionAlgorithm::Brotli => 2,
            CertCompressionAlgorithm::Zstd => 3,
        }
    }
}

/// How the peer's certificate chain is checked.
#[derive(Clone, Copy, Debug, PartialEq, Eq, Structural)]
pub enum VerifyMode {
    /// No verification at all.
    Disabled,
    /// The peer's chain is verified.
    Peer,
}

/// A trust store given as DER-encoded certificates.
#[derive(Debug)]
pub struct CertStore {
    pub certificates: Vec<Vec<u8>>,
}

impl View for CertStore {
    type V = Seq<Seq<u8>>;

    open spec fn view(&self) -> Seq<Seq<u8>> {
        self.certificates@.map_values(|c: Vec<u8>| c@)
    }
}

/// What the verification trust anchors are.
#[derive(Debug)]
pub enum VerifyStore {
    /// The engine's own default.
    EngineDefault,
    /// A store that the caller supplied; it replaces the default entirely.
    Custom(CertStore),
    /// The operating system's certificates: `trusted[i]` says whether the
    /// certificate at position `i` of the bundle goes into the store (it
    /// parsed); then the counts, and whether the engine's default trust paths
    /// are added because none did.
    Native { trusted: Vec<bool>, valid: usize, invalid: usize, default_paths: bool },
}

/// The model of the trust anchors.
pub enum VerifyStoreModel {
    EngineDefault,
    Custom(Seq<Seq<u8>>),
    Native { trusted: Seq<bool>, valid: nat, invalid: nat, default_paths: bool },
}

impl View for VerifyStore {
    type V = VerifyStoreModel;

    open spec fn view(&self) -> VerifyStoreModel {
        match self {
            VerifyStore::EngineDefault => VerifyStoreModel::EngineDefault,
            VerifyStore::Custom(s) => VerifyStoreModel::Custom(s@),
            VerifyStore::Native { trusted, valid, invalid, default_paths } => VerifyStoreModel::Native {
                trusted: trusted@,
                valid: *valid as nat,
                invalid: *invalid as nat,
                default_paths: *default_paths,
            },
        }
    }
}

/// Why a connector could not be configured.
#[derive(Clone, Copy, Debug, PartialEq, Eq, Structural)]
pub enum TlsConfigError {
    /// The certificate-compression algorithm with this number was already registered.
    DuplicateCompressionAlgorithm(u16),
}

/// The model of a connector template. `None` leaves a setting at the engine's default.
pub struct TemplateModel {
    pub verify_mode: Option<VerifyMode>,
    pub alpn: Option<Seq<u8>>,
    pub min_version: Option<u16>,
    pub max_version: Option<u16>,
    pub cert_compression: Seq<u16>,
    pub permute_extensions: Option<bool>,
    pub verify_store: VerifyStoreModel,
}

/// The TLS settings shared by every connection that a client makes.
#[derive(Debug)]
pub struct ConnectorTemplate {
    pub verify_mode: Option<VerifyMode>,
    pub alpn_protos: Option<Vec<u8>>,
    pub min_version: Option<u16>,
    pub max_version: Option<u16>,
    pub cert_compression_algs: Vec<u16>,
    pub permute_extensions: Option<bool>,
    pub verify_store: VerifyStore,
}

impl View for ConnectorTemplate {
    type V = TemplateModel;

    open spec fn view(&self) -> TemplateModel {
        TemplateModel {
            verify_mode: self.verify_mode,
            alpn: match self.alpn_protos {
                Some(a) => Some(a@),
                None => None,
            },
            min_version: self.min_version,
            max_version: self.max_version,
            cert_compression: self.cert_compression_algs@,
            permute_extensions: self.permute_extensions,
            verify_store: self.verify_store@,
        }
    }
}

/// A template with every setting left at the engine's default.
pub open spec fn engine_defaults() -> TemplateModel {
    TemplateModel {
        verify_mode: None,
        alpn: None,
        min_version: None,
        max_version: None,
        cert_compression: Seq::empty(),
        permute_extensions: None,
        verify_store: VerifyStoreModel::EngineDefault,
    }
}

/// No algorithm is registered twice.
pub open spec fn distinct_algs(s: Seq<u16>) -> bool {
    forall|i: int, j: int| 0 <= i < j < s.len() ==> s[i] != s[j]
}

/// Sets the verification mode.
pub open spec fn with_verification(m: TemplateModel, certs_verification: bool) -> TemplateModel {
    TemplateModel {
        verify_mode: Some(if certs_verification { VerifyMode::Peer } else { VerifyMode::Disabled }),
        ..m
    }
}

/// Sets the ALPN list of a preference.
pub open spec fn with_alpn(m: TemplateModel, pref: HttpVersionPref) -> TemplateModel {
    TemplateModel { alpn: Some(alpn_wire(pref)), ..m }
}

/// Sets the lower version bound, when one is given.
pub open spec fn with_min_version(m: TemplateModel, v: Option<TlsVersion>) -> TemplateModel {
    match v {
        Some(v) => TemplateModel { min_version: Some(engine_version(v)), ..m },
        None => m,
    }
}

/// Sets the upper version bound, when one is given.
pub open spec fn with_max_version(m: TemplateModel, v: Option<TlsVersion>) -> TemplateModel {
    match v {
        Some(v) => TemplateModel { max_version: Some(engine_version(v)), ..m },
        None => m,
    }
}

/// Registers a compression algorithm; one registered already is an error.
pub open spec fn with_compression_alg(m: TemplateModel, id: u16) -> Result<TemplateModel, TlsConfigError> {
    if m.cert_compression.contains(id) {
        Err(TlsConfigError::DuplicateCompressionAlgorithm(id))
    } else {
        Ok(TemplateModel { cert_compression: m.cert_compression.push(id), ..m })
    }
}

/// Sets the extension-order policy, when it is requested at all.
pub open spec fn with_permutation(m: TemplateModel, enable: bool, permute: bool) -> TemplateModel {
    if enable {
        TemplateModel { permute_extensions: Some(permute), ..m }
    } else {
        m
    }
}

/// Number of `true` entries of a sequence.
pub open spec fn count_true(s: Seq<bool>) -> nat
    decreases s.len(),
{
    if s.len() == 0 {
        0
    } else {
        count_true(s.drop_last()) + if s.last() { 1nat } else { 0nat }
    }
}

/// The trust anchors built from the operating system's certificates, given
/// which of them parsed: exactly those that parsed, plus the engine's default
/// paths when the bundle was not empty and none of it parsed.
pub open spec fn native_store(parsed: Seq<bool>) -> VerifyStoreModel {
    let valid = count_true(parsed);
    let invalid = (parsed.len() - valid) as nat;
    VerifyStoreModel::Native { trusted: parsed, valid, invalid, default_paths: valid == 0 && invalid > 0 }
}

impl ConnectorTemplate {
    /// A template that leaves every setting at the engine's default.
    pub fn new() -> (r: ConnectorTemplate)
        ensures
            r@ == engine_defaults(),
    {
        let r = ConnectorTemplate {
            verify_mode: None,
            alpn_protos: None,
            min_version: None,
            max_version: None,
            cert_compression_algs: Vec::new(),
            permute_extensions: None,
            verify_store: VerifyStore::EngineDefault,
        };
        assert(r@.cert_compression =~= Seq::<u16>::empty());
        r
    }

    /// Well formed: no compression algorithm is registered twice.
    pub open spec fn wf(&self) -> bool {
        distinct_algs(self.cert_compression_algs@)
    }

    /// Verifies the peer's chain, or skips verification entirely.
    pub fn configure_cert_verification(self, certs_verification: bool) -> (r: Result<ConnectorTemplate, TlsConfigError>)
        ensures
            r matches Ok(t) && t@ == with_verification(self@, certs_verification) && t.wf() == self.wf(),
    {
        let mut s = self;
        if !certs_verification {
            s.verify_mode = Some(VerifyMode::Disabled);
        } else {
            s.verify_mode = Some(VerifyMode::Peer);
        }
        Ok(s)
    }

    /// Offers the ALPN list of a preference.
    pub fn configure_alpn_protos(self, http_version: HttpVersionPref) -> (r: Result<ConnectorTemplate, TlsConfigError>)
        ensures
            r matches Ok(t) && t@ == with_alpn(self@, http_version) && t.wf() == self.wf(),
    {
        let mut s = self;
        s.alpn_protos = Some(alpn_protos(http_version));
        Ok(s)
    }

    /// Sets the lowest protocol version; without a bound the engine's own is kept.
    pub fn configure_min_tls_version(self, min_tls_version: Option<TlsVersion>) -> (r: Result<ConnectorTemplate, TlsConfigError>)
        ensures
            r matches Ok(t) && t@ == with_min_version(self@, min_tls_version) && t.wf() == self.wf(),
    {
        let mut s = self;
        if let Some(version) = min_tls_version {
            s.min_version = Some(ssl_version(version));
        }
        Ok(s)
    }

    /// Sets the highest protocol version; without a bound the engine's own is kept.
    pub fn configure_max_tls_version(self, max_tls_version: Option<TlsVersion>) -> (r: Result<ConnectorTemplate, TlsConfigError>)
        ensures
            r matches Ok(t) && t@ == with_max_version(self@, max_tls_version) && t.wf() == self.wf(),
    {
        let mut s = self;
        if let Some(version) = max_tls_version {
            s.max_version = Some(ssl_version(version));
        }
        Ok(s)
    }

    /// Registers a certificate-compression algorithm; registering one twice fails.
    pub fn configure_add_cert_compression_alg(self, cert_compression_alg: CertCompressionAlgorithm) -> (r: Result<ConnectorTemplate, TlsConfigError>)
        requires
            self.wf(),
        ensures
            with_compression_alg(self@, compression_alg_id(cert_compression_alg)) matches Ok(m)
                ==> r matches Ok(t) && t@ == m && t.wf(),
            with_compression_alg(self@, compression_alg_id(cert_compression_alg)) matches Err(f)
                ==> r matches Err(e) && e == f,
    {
        let id = cert_compression_alg.id();
        let mut i: usize = 0;
        while i < self.cert_compression_algs.len()
            invariant
                i <= self.cert_compression_algs@.len(),
                id == compression_alg_id(cert_compression_alg),
                forall|k: int| 0 <= k < i ==> self.cert_compression_algs@[k] != id,
            decreases self.cert_compression_algs@.len() - i,
        {
            if self.cert_compression_algs[i] == id {
                assert(self.cert_compression_algs@[i as int] == id);
                assert(self@.cert_compression.contains(id));
                return Err(TlsConfigError::DuplicateCompressionAlgorithm(id));
            }
            i += 1;
        }
        let mut s = self;
        s.cert_compression_algs.push(id);
        Ok(s)
    }

    /// Replaces the trust anchors with the caller's store, when one is supplied.
    pub fn configure_ca_cert_store(self, ca_cert_store: Option<CertStore>) -> (r: Result<ConnectorTemplate, TlsConfigError>)
        ensures
            r matches Ok(t) && t.wf() == self.wf() && match ca_cert_store {
                Some(c) => t@ == (TemplateModel { verify_store: VerifyStoreModel::Custom(c@), ..self@ }),
                None => t@ == self@,
            },
    {
        let mut s = self;
        if let Some(store) = ca_cert_store {
            s.verify_store = VerifyStore::Custom(store);
        }
        Ok(s)
    }

    /// Chooses the extension order: nothing changes unless `enable`; then
    /// `permute_extensions` says whether the order is shuffled per handshake.
    pub fn configure_permute_extensions(self, enable: bool, permute_extensions: bool) -> (r: Result<ConnectorTemplate, TlsConfigError>)
        ensures
            r matches Ok(t) && t@ == with_permutation(self@, enable, permute_extensions) && t.wf() == self.wf(),
    {
        if !enable {
            return Ok(self);
        }
        let mut s = self;
        s.permute_extensions = Some(permute_extensions);
        Ok(s)
    }

    /// Uses the operating system's certificates as trust anchors, given which
    /// of them parsed; when the bundle is not empty and none parsed, the
    /// engine's default trust paths are used as well.
    pub fn configure_set_verify_cert_store(self, parsed: &Vec<bool>) -> (r: Result<ConnectorTemplate, TlsConfigError>)
        ensures
            r matches Ok(t) && t.wf() == self.wf()
                && t@ == (TemplateModel { verify_store: native_store(parsed@), ..self@ }),
    {
        let mut valid_count: usize = 0;
        let mut invalid_count: usize = 0;
        let mut i: usize = 0;
        while i < parsed.len()
            invariant
                i <= parsed@.len(),
                valid_count == count_true(parsed@.subrange(0, i as int)),
                valid_count + invalid_count == i,
            decreases parsed@.len() - i,
        {
            proof {
                assert(parsed@.subrange(0, i + 1).drop_last() =~= parsed@.subrange(0, i as int));
            }
            if parsed[i] {
                valid_count += 1;
            } else {
                invalid_count += 1;
            }
            i += 1;
        }
        assert(parsed@.subrange(0, parsed@.len() as int) =~= parsed@);
        let default_paths = valid_count == 0 && invalid_count > 0;
        let mut s = self;
        let trusted = parsed.clone();
        assert(trusted@ =~= parsed@);
        s.verify_store = VerifyStore::Native { trusted, valid: valid_count, invalid: invalid_count, default_paths };
        Ok(s)
    }
}

/// The numbers of a list of compression algorithms.
pub open spec fn alg_ids(algs: Seq<CertCompressionAlgorithm>) -> Seq<u16> {
    algs.map_values(|a: CertCompressionAlgorithm| compression_alg_id(a))
}

/// Registers the algorithms in turn; the first one registered twice is the error.
pub open spec fn with_compression_algs(m: TemplateModel, algs: Seq<CertCompressionAlgorithm>) -> Result<TemplateModel, TlsConfigError>
    decreases algs.len(),
{
    if algs.len() == 0 {
        Ok(m)
    } else {
        match with_compression_algs(m, algs.drop_last()) {
            Ok(m2) => with_compression_alg(m2, compression_alg_id(algs.last())),
            Err(e) => Err(e),
        }
    }
}

/// The TLS parameters of an impersonation profile.
#[derive(Debug)]
pub struct TlsProfile {
    pub certs_verification: bool,
    pub alpn: HttpVersionPref,
    pub min_tls_version: Option<TlsVersion>,
    pub max_tls_version: Option<TlsVersion>,
    pub cert_compression_algorithms: Vec<CertCompressionAlgorithm>,
    /// `None`: the extension order is left as the engine has it; `Some(b)`:
    /// `b` says whether it is shuffled per handshake.
    pub permute_extensions: Option<bool>,
    pub enable_ech_grease: bool,
    pub application_settings: bool,
}

/// The template before compression algorithms and trust anchors are set.
pub open spec fn base_model(p: TlsProfile) -> TemplateModel {
    let m = with_verification(engine_defaults(), p.certs_verification);
    let m = with_alpn(m, p.alpn);
    let m = with_min_version(m, p.min_tls_version);
    let m = with_max_version(m, p.max_tls_version);
    with_permutation(m, p.permute_extensions is Some, p.permute_extensions.unwrap_or(false))
}

/// The template that a profile yields: a custom store wins over the native
/// certificates, which are used only when the caller opted into them.
pub open spec fn connector_model(p: TlsProfile, store: Option<Seq<Seq<u8>>>, native: Option<Seq<bool>>) -> Result<TemplateModel, TlsConfigError> {
    match with_compression_algs(base_model(p), p.cert_compression_algorithms@) {
        Err(e) => Err(e),
        Ok(m) => Ok(match store {
            Some(c) => TemplateModel { verify_store: VerifyStoreModel::Custom(c), ..m },
            None => match native {
                Some(n) => TemplateModel { verify_store: native_store(n), ..m },
                None => m,
            },
        }),
    }
}

proof fn lemma_distinct_push(s: Seq<u16>, x: u16)
    ensures
        distinct_algs(s.push(x)) <==> distinct_algs(s) && !s.contains(x),
{
    if distinct_algs(s.push(x)) {
        assert forall|i: int, j: int| 0 <= i < j < s.len() implies s[i] != s[j] by {
            assert(s.push(x)[i] == s[i] && s.push(x)[j] == s[j]);
        }
        if s.contains(x) {
            let k = choose|k: int| 0 <= k < s.len() && s[k] == x;
            assert(s.push(x)[k] == s.push(x)[s.len() as int]);
        }
    }
    if distinct_algs(s) && !s.contains(x) {
        assert forall|i: int, j: int| 0 <= i < j < s.push(x).len() implies s.push(x)[i] != s.push(x)[j] by {
            if j == s.len() {
                assert(s.push(x)[i] == s[i]);
            } else {
                assert(s.push(x)[i] == s[i] && s.push(x)[j] == s[j]);
            }
        }
    }
}

/// Registering a list of algorithms succeeds exactly when no number would be
/// registered twice, and then appends their numbers in order.
pub proof fn lemma_compression_algs(m: TemplateModel, algs: Seq<CertCompressionAlgorithm>)
    requires
        distinct_algs(m.cert_compression),
    ensures
        with_compression_algs(m, algs) is Ok <==> distinct_algs(m.cert_compression + alg_ids(algs)),
        with_compression_algs(m, algs) matches Ok(m2) ==> m2 == (TemplateModel {
            cert_compression: m.cert_compression + alg_ids(algs),
            ..m
        }),
    decreases algs.len(),
{
    if algs.len() == 0 {
        assert(m.cert_compression + alg_ids(algs) =~= m.cert_compression);
    } else {
        let init = algs.drop_last();
        lemma_compression_algs(m, init);
        let pre = m.cert_compression + alg_ids(init);
        let x = compression_alg_id(algs.last());
        assert(m.cert_compression + alg_ids(algs) =~= pre.push(x));
        lemma_distinct_push(pre, x);
    }
}

proof fn lemma_compression_algs_err(m: TemplateModel, algs: Seq<CertCompressionAlgorithm>, k: int)
    requires
        0 <= k <= algs.len(),
        with_compression_algs(m, algs.subrange(0, k)) is Err,
    ensures
        with_compression_algs(m, algs) == with_compression_algs(m, algs.subrange(0, k)),
    decreases algs.len(),
{
    if k == algs.len() {
        assert(algs.subrange(0, k) =~= algs);
    } else {
        assert(algs.drop_last().subrange(0, k) =~= algs.subrange(0, k));
        lemma_compression_algs_err(m, algs.drop_last(), k);
    }
}

/// The certificates of a store that may be absent.
pub open spec fn store_view(s: Option<CertStore>) -> Option<Seq<Seq<u8>>> {
    match s {
        Some(c) => Some(c@),
        None => None,
    }
}

/// The parse results of the native certificates, when they are used.
pub open spec fn native_view(n: Option<&Vec<bool>>) -> Option<Seq<bool>> {
    match n {
        Some(v) => Some(v@),
        None => None,
    }
}

/// Builds the connector template of a profile. `ca_cert_store` replaces the
/// trust anchors when given; otherwise `native_roots`, when given, says which
/// of the operating system's certificates parsed.
pub fn configure_connector(profile: &TlsProfile, ca_cert_store: Option<CertStore>, native_roots: Option<&Vec<bool>>) -> (r: Result<ConnectorTemplate, TlsConfigError>)
    ensures
        r is Ok <==> distinct_algs(alg_ids(profile.cert_compression_algorithms@)),
        connector_model(*profile, store_view(ca_cert_store), native_view(native_roots)) matches Ok(m)
            ==> r matches Ok(t) && t@ == m && t.wf(),
        connector_model(*profile, store_view(ca_cert_store), native_view(native_roots)) matches Err(f)
            ==> r matches Err(e) && e == f,
{
    let t = ConnectorTemplate::new();
    let t = match t.configure_cert_verification(profile.certs_verification) {
        Ok(t) => t,
        Err(e) => return Err(e),
    };
    let t = match t.configure_alpn_protos(profile.alpn) {
        Ok(t) => t,
        Err(e) => return Err(e),
    };
    let t = match t.configure_min_tls_version(profile.min_tls_version) {
        Ok(t) => t,
        Err(e) => return Err(e),
    };
    let t = match t.configure_max_tls_version(profile.max_tls_version) {
        Ok(t) => t,
        Err(e) => return Err(e),
    };
    let (enable, permute) = match profile.permute_extensions {
        Some(p) => (true, p),
        None => (false, false),
    };
    let mut t = match t.configure_permute_extensions(enable, permute) {
        Ok(t) => t,
        Err(e) => return Err(e),
    };
    let ghost base = t@;
    assert(base == base_model(*profile));
    assert(t@.cert_compression =~= Seq::<u16>::empty());
    proof {
        lemma_compression_algs(base, profile.cert_compression_algorithms@);
        assert(base.cert_compression + alg_ids(profile.cert_compression_algorithms@) =~= alg_ids(profile.cert_compression_algorithms@));
    }
    let algs = &profile.cert_compression_algorithms;
    let mut i: usize = 0;
    while i < algs.len()
        invariant
            algs == &profile.cert_compression_algorithms,
            i <= algs@.len(),
            t.wf(),
            distinct_algs(base.cert_compression),
            base == base_model(*profile),
            base.cert_compression == Seq::<u16>::empty(),
            with_compression_algs(base, algs@.subrange(0, i as int)) == Ok::<TemplateModel, TlsConfigError>(t@),
        decreases algs@.len() - i,
    {
        proof {
            assert(algs@.subrange(0, i + 1).drop_last() =~= algs@.subrange(0, i as int));
        }
        t = match t.configure_add_cert_compression_alg(algs[i]) {
            Ok(t) => t,
            Err(e) => {
                proof {
                    lemma_compression_algs_err(base, algs@, i + 1);
                    lemma_compression_algs(base, algs@);
                    assert(base.cert_compression + alg_ids(algs@) =~= alg_ids(algs@));
                }
                return Err(e);
            },
        };
        i += 1;
    }
    assert(algs@.subrange(0, algs@.len() as int) =~= algs@);
    proof {
        lemma_compression_algs(base, algs@);
        assert(base.cert_compression + alg_ids(algs@) =~= alg_ids(algs@));
    }
    match ca_cert_store {
        Some(store) => t.configure_ca_cert_store(Some(store)),
        None => match native_roots {
            Some(parsed) => t.configure_set_verify_cert_store(parsed),
            None => Ok(t),
        },
    }
}

/// The model of the settings applied to a single handshake.
pub struct AttemptModel {
    pub ech_grease: Option<bool>,
    pub application_settings: Seq<Seq<u8>>,
}

/// The settings applied to one handshake, on top of the shared template.
#[derive(Debug)]
pub struct ConnectAttempt {
    /// Whether a decoy encrypted-client-hello extension is sent; `None` keeps
    /// the engine's default.
    pub ech_grease: Option<bool>,
    /// The protocols whose application settings are announced, in order.
    pub application_settings: Vec<Vec<u8>>,
}

impl View for ConnectAttempt {
    type V = AttemptModel;

    open spec fn view(&self) -> AttemptModel {
        AttemptModel {
            ech_grease: self.ech_grease,
            application_settings: self.application_settings@.map_values(|p: Vec<u8>| p@),
        }
    }
}

/// The model of the settings of a profile's handshakes.
pub open spec fn attempt_model(p: TlsProfile) -> AttemptModel {
    AttemptModel {
        ech_grease: if p.enable_ech_grease { Some(true) } else { None },
        application_settings: if p.application_settings {
            seq![crate::alpn::application_settings_id(p.alpn)]
        } else {
            Seq::empty()
        },
    }
}

impl ConnectAttempt {
    /// A handshake with nothing set beyond the template.
    pub fn new() -> (r: ConnectAttempt)
        ensures
            r@.ech_grease is None,
            r@.application_settings.len() == 0,
    {
        ConnectAttempt { ech_grease: None, application_settings: Vec::new() }
    }

    /// Sends, or does not send, a decoy encrypted-client-hello extension;
    /// nothing changes unless `enable`.
    pub fn configure_enable_ech_grease(&mut self, enable: bool, enable_ech_grease: bool) -> (r: Result<(), TlsConfigError>)
        ensures
            r is Ok,
            enable ==> final(self)@ == (AttemptModel { ech_grease: Some(enable_ech_grease), ..old(self)@ }),
            !enable ==> final(self)@ == old(self)@,
    {
        if !enable {
            return Ok(());
        }
        self.ech_grease = Some(enable_ech_grease);
        Ok(())
    }

    /// Announces application settings for the protocol that the preference
    /// negotiates: `h2`, or `http/1.1` for an HTTP/1-only preference; nothing
    /// changes unless `enable`.
    pub fn configure_add_application_settings(&mut self, enable: bool, http_version: HttpVersionPref) -> (r: Result<(), TlsConfigError>)
        ensures
            r is Ok,
            enable ==> final(self)@ == (AttemptModel {
                application_settings: old(self)@.application_settings.push(crate::alpn::application_settings_id(http_version)),
                ..old(self)@
            }),
            !enable ==> final(self)@ == old(self)@,
    {
        if !enable {
            return Ok(());
        }
        let id = crate::alpn::application_settings_protocol(http_version);
        let ghost before = self.application_settings@;
        self.application_settings.push(id);
        assert(self.application_settings@.map_values(|p: Vec<u8>| p@) =~= before.map_values(|p: Vec<u8>| p@).push(crate::alpn::application_settings_id(http_version)));
        Ok(())
    }
}

/// The per-handshake settings of a profile.
pub fn configure_connect_attempt(profile: &TlsProfile) -> (r: Result<ConnectAttempt, TlsConfigError>)
    ensures
        r matches Ok(a) && a@ == attempt_model(*profile),
{
    let mut a = ConnectAttempt::new();
    if let Err(e) = a.configure_enable_ech_grease(profile.enable_ech_grease, true) {
        return Err(e);
    }
    if let Err(e) = a.configure_add_application_settings(profile.application_settings, profile.alpn) {
        return Err(e);
    }
    assert(a@.application_settings =~= attempt_model(*profile).application_settings);
    Ok(a)
}

/// A profile without version bounds leaves the engine's own version range
/// untouched: neither bound of the template is set.
pub proof fn lemma_unbounded_profile_keeps_engine_range(p: TlsProfile, store: Option<Seq<Seq<u8>>>, native: Option<Seq<bool>>)
    requires
        p.min_tls_version is None,
        p.max_tls_version is None,
    ensures
        connector_model(p, store, native) matches Ok(m) ==> m.min_version is None && m.max_version is None,
{
    lemma_compression_algs(base_model(p), p.cert_compression_algorithms@);
}

} // verus!
