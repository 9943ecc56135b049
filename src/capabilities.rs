//! Capability maps and their negotiation between two endpoints.

use vstd::prelude::*;
use etptypes::energistics::etp::v12::datatypes::data_value::DataValue as EtpDataValue;

verus! {

#[verifier::external_type_specification]
#[verifier::external_body]
pub struct ExEtpDataValue(EtpDataValue);

/// A capability value, as far as negotiation reads it.
pub enum DataValue {
    Boolean(bool),
    Int(i32),
    Long(i64),
    /// A float or a double: the integer that truncation toward zero gives,
    /// and the value itself.
    Real(i64, EtpDataValue),
    String(String),
    /// Any other variant of the schema's value union; never read.
    Other(EtpDataValue),
}

/// The integer a value stands for, if any: a string counts when it is a
/// decimal integer within 64 bits.
pub open spec fn as_integer(v: DataValue) -> Option<int> {
    match v {
        DataValue::Int(x) => Some(x as int),
        DataValue::Long(x) => Some(x as int),
        DataValue::Real(t, _) => Some(t as int),
        DataValue::String(s) => i64_of_text(s@),
        _ => None,
    }
}

pub open spec fn as_boolean(v: DataValue) -> Option<bool> {
    match v {
        DataValue::Boolean(b) => Some(b),
        _ => None,
    }
}

pub open spec fn is_digit(c: char) -> bool {
    '0' <= c <= '9'
}

/// Value of a string of decimal digits.
pub open spec fn digits_value(s: Seq<char>) -> nat
    decreases s.len(),
{
    if s.len() == 0 {
        0
    } else {
        10 * digits_value(s.drop_last()) + (s.last() as nat - '0' as nat) as nat
    }
}

/// An optional `+` or `-` followed by one or more decimal digits, and
/// nothing else, whose value fits in an `i64`.
pub open spec fn i64_of_text(s: Seq<char>) -> Option<int> {
    let signed = s.len() > 0 && (s[0] == '+' || s[0] == '-');
    let digits = if signed {
        s.drop_first()
    } else {
        s
    };
    let v: int = if signed && s[0] == '-' {
        -(digits_value(digits) as int)
    } else {
        digits_value(digits) as int
    };
    if digits.len() > 0 && (forall|i: int| 0 <= i < digits.len() ==> is_digit(#[trigger] digits[i]))
        && i64::MIN <= v <= i64::MAX {
        Some(v)
    } else {
        None
    }
}

/// Relies on `str::parse::<i64>`, which std documents as accepting an
/// optional sign followed by decimal digits only, and failing on overflow.
#[verifier::external_body]
fn parse_i64(s: &str) -> (r: Option<i64>)
    ensures
        match i64_of_text(s@) {
            Some(v) => r == Some(v as i64),
            None => r is None,
        },
{
    s.parse::<i64>().ok()
}

/// Keys and values, in order; the view of a capability map.
pub type Entries = Seq<(Seq<char>, DataValue)>;

/// The value of key `k`: the last entry with that key wins.
pub open spec fn lookup(s: Entries, k: Seq<char>) -> Option<DataValue>
    decreases s.len(),
{
    if s.len() == 0 {
        None
    } else if s.last().0 == k {
        Some(s.last().1)
    } else {
        lookup(s.drop_last(), k)
    }
}

pub open spec fn keys_unique(s: Entries) -> bool {
    forall|i: int, j: int| 0 <= i < j < s.len() ==> s[i].0 != s[j].0
}

/// A map from capability names to values, in insertion order.
pub struct CapabilityMap {
    entries: Vec<(String, DataValue)>,
}

impl View for CapabilityMap {
    type V = Entries;

    closed spec fn view(&self) -> Entries {
        self.entries@.map_values(|e: (String, DataValue)| (e.0@, e.1))
    }
}

proof fn lemma_lookup_absent(s: Entries, k: Seq<char>)
    ensures
        lookup(s, k) is None <==> forall|i: int| 0 <= i < s.len() ==> s[i].0 != k,
    decreases s.len(),
{
    if s.len() > 0 {
        lemma_lookup_absent(s.drop_last(), k);
        if lookup(s, k) is None {
            assert forall|i: int| 0 <= i < s.len() implies s[i].0 != k by {
                if i < s.len() - 1 {
                    assert(s[i] == s.drop_last()[i]);
                }
            }
        } else {
            if s.last().0 != k {
                let i = choose|i: int| 0 <= i < s.drop_last().len() && s.drop_last()[i].0 == k;
                assert(s[i] == s.drop_last()[i]);
            }
        }
    }
}

proof fn lemma_lookup_push(s: Entries, e: (Seq<char>, DataValue), k: Seq<char>)
    ensures
        lookup(s.push(e), k) == if e.0 == k {
            Some(e.1)
        } else {
            lookup(s, k)
        },
{
    assert(s.push(e).drop_last() =~= s);
}

impl CapabilityMap {
    /// Keys are unique.
    pub closed spec fn wf(&self) -> bool {
        keys_unique(self@)
    }

    pub fn new() -> (r: CapabilityMap)
        ensures
            r@ == Seq::<(Seq<char>, DataValue)>::empty(),
            r.wf(),
    {
        let r = CapabilityMap { entries: Vec::new() };
        assert(r@ =~= Seq::<(Seq<char>, DataValue)>::empty());
        r
    }

    pub fn len(&self) -> (r: usize)
        ensures
            r == self@.len(),
    {
        self.entries.len()
    }

    /// The key and value at position `i`.
    pub fn entry(&self, i: usize) -> (r: (&String, &DataValue))
        requires
            i < self@.len(),
        ensures
            r.0@ == self@[i as int].0,
            *r.1 == self@[i as int].1,
    {
        let e = &self.entries[i];
        (&e.0, &e.1)
    }

    /// Position of key `k`, if present.
    pub fn find(&self, k: &str) -> (r: Option<usize>)
        ensures
            match r {
                Some(i) => i < self@.len() && self@[i as int].0 == k@,
                None => forall|i: int| 0 <= i < self@.len() ==> self@[i].0 != k@,
            },
    {
        let mut i: usize = 0;
        while i < self.entries.len()
            invariant
                i <= self.entries.len(),
                self@.len() == self.entries.len(),
                forall|j: int| 0 <= j < i ==> self@[j].0 != k@,
            decreases self.entries.len() - i,
        {
            if same_text(self.entries[i].0.as_str(), k) {
                return Some(i);
            }
            i = i + 1;
        }
        None
    }

    pub fn get(&self, k: &str) -> (r: Option<&DataValue>)
        requires
            self.wf(),
        ensures
            match lookup(self@, k@) {
                Some(v) => r matches Some(x) && *x == v,
                None => r is None,
            },
    {
        proof {
            lemma_lookup_absent(self@, k@);
        }
        match self.find(k) {
            Some(i) => {
                proof {
                    lemma_lookup_unique(self@, i as int);
                }
                Some(&self.entries[i].1)
            },
            None => None,
        }
    }

    pub fn contains_key(&self, k: &str) -> (r: bool)
        ensures
            r == lookup(self@, k@) is Some,
    {
        proof {
            lemma_lookup_absent(self@, k@);
        }
        self.find(k).is_some()
    }

    /// Sets key `k` to `v`, in place where `k` is present, else at the end.
    pub fn insert(&mut self, k: String, v: DataValue)
        requires
            old(self).wf(),
        ensures
            final(self).wf(),
            forall|q: Seq<char>| #[trigger]
                lookup(final(self)@, q) == if q == k@ {
                    Some(v)
                } else {
                    lookup(old(self)@, q)
                },
    {
        proof {
            lemma_lookup_absent(self@, k@);
        }
        match self.find(k.as_str()) {
            Some(i) => {
                let ghost before = self@;
                self.entries.set(i, (k, v));
                proof {
                    assert(self@ =~= before.update(i as int, (k@, v)));
                    assert forall|q: Seq<char>| #[trigger]
                        lookup(self@, q) == if q == k@ {
                            Some(v)
                        } else {
                            lookup(before, q)
                        } by {
                        lemma_lookup_update(before, i as int, v, q);
                    }
                }
            },
            None => {
                let ghost before = self@;
                self.entries.push((k, v));
                proof {
                    assert(self@ =~= before.push((k@, v)));
                    assert forall|q: Seq<char>| #[trigger]
                        lookup(self@, q) == if q == k@ {
                            Some(v)
                        } else {
                            lookup(before, q)
                        } by {
                        lemma_lookup_push(before, (k@, v), q);
                    }
                }
            },
        }
    }
}

proof fn lemma_lookup_unique(s: Entries, i: int)
    requires
        keys_unique(s),
        0 <= i < s.len(),
    ensures
        lookup(s, s[i].0) == Some(s[i].1),
    decreases s.len(),
{
    if i < s.len() - 1 {
        assert(s.drop_last()[i] == s[i]);
        assert(keys_unique(s.drop_last()));
        lemma_lookup_unique(s.drop_last(), i);
    }
}

proof fn lemma_lookup_update(s: Entries, i: int, v: DataValue, q: Seq<char>)
    requires
        keys_unique(s),
        0 <= i < s.len(),
    ensures
        lookup(s.update(i, (s[i].0, v)), q) == if q == s[i].0 {
            Some(v)
        } else {
            lookup(s, q)
        },
    decreases s.len(),
{
    let t = s.update(i, (s[i].0, v));
    if i == s.len() - 1 {
        assert(t.drop_last() =~= s.drop_last());
        if q == s[i].0 {
        } else {
        }
    } else {
        assert(t.drop_last() =~= s.drop_last().update(i, (s[i].0, v)));
        assert(keys_unique(s.drop_last()));
        assert(s.drop_last()[i] == s[i]);
        lemma_lookup_update(s.drop_last(), i, v, q);
    }
}

/// Whether two strings hold the same characters.
pub fn same_text(a: &str, b: &str) -> (r: bool)
    ensures
        r == (a@ == b@),
{
    let n = a.unicode_len();
    if n != b.unicode_len() {
        return false;
    }
    let mut i: usize = 0;
    while i < n
        invariant
            n == a@.len() == b@.len(),
            i <= n,
            forall|j: int| 0 <= j < i ==> a@[j] == b@[j],
        decreases n - i,
    {
        if a.get_char(i) != b.get_char(i) {
            return false;
        }
        i = i + 1;
    }
    assert(a@ =~= b@);
    true
}

/// The endpoint capabilities that ETP 1.2 names.
#[derive(Debug, PartialEq, Eq, Structural, Clone, Copy)]
pub enum EndpointCapabilityKind {
    ActiveTimeoutPeriod,
    AuthorizationDetails,
    ChangePropagationPeriod,
    ChangeRetentionPeriod,
    MaxConcurrentMultipart,
    MaxDataObjectSize,
    MaxPartSize,
    MaxSessionClientCount,
    MaxSessionGlobalCount,
    MaxWebSocketFramePayloadSize,
    MaxWebSocketMessagePayloadSize,
    MultipartMessageTimeoutPeriod,
    ResponseTimeoutPeriod,
    RequestSessionTimeoutPeriod,
    SessionEstablishmentTimeoutPeriod,
    SupportsAlternateRequestUris,
    SupportsMessageHeaderExtensions,
}

pub open spec fn kind_name(k: EndpointCapabilityKind) -> Seq<char> {
    match k {
        EndpointCapabilityKind::ActiveTimeoutPeriod => "ActiveTimeoutPeriod"@,
        EndpointCapabilityKind::AuthorizationDetails => "AuthorizationDetails"@,
        EndpointCapabilityKind::ChangePropagationPeriod => "ChangePropagationPeriod"@,
        EndpointCapabilityKind::ChangeRetentionPeriod => "ChangeRetentionPeriod"@,
        EndpointCapabilityKind::MaxConcurrentMultipart => "MaxConcurrentMultipart"@,
        EndpointCapabilityKind::MaxDataObjectSize => "MaxDataObjectSize"@,
        EndpointCapabilityKind::MaxPartSize => "MaxPartSize"@,
        EndpointCapabilityKind::MaxSessionClientCount => "MaxSessionClientCount"@,
        EndpointCapabilityKind::MaxSessionGlobalCount => "MaxSessionGlobalCount"@,
        EndpointCapabilityKind::MaxWebSocketFramePayloadSize => "MaxWebSocketFramePayloadSize"@,
        EndpointCapabilityKind::MaxWebSocketMessagePayloadSize => "MaxWebSocketMessagePayloadSize"@,
        EndpointCapabilityKind::MultipartMessageTimeoutPeriod => "MultipartMessageTimeoutPeriod"@,
        EndpointCapabilityKind::ResponseTimeoutPeriod => "ResponseTimeoutPeriod"@,
        EndpointCapabilityKind::RequestSessionTimeoutPeriod => "RequestSessionTimeoutPeriod"@,
        EndpointCapabilityKind::SessionEstablishmentTimeoutPeriod => "SessionEstablishmentTimeoutPeriod"@,
        EndpointCapabilityKind::SupportsAlternateRequestUris => "SupportsAlternateRequestUris"@,
        EndpointCapabilityKind::SupportsMessageHeaderExtensions => "SupportsMessageHeaderExtensions"@,
    }
}

/// The kind named exactly `name`.
pub open spec fn kind_of(name: Seq<char>) -> Option<EndpointCapabilityKind> {
    if name == kind_name(EndpointCapabilityKind::ActiveTimeoutPeriod) {
        Some(EndpointCapabilityKind::ActiveTimeoutPeriod)
    } else if name == kind_name(EndpointCapabilityKind::AuthorizationDetails) {
        Some(EndpointCapabilityKind::AuthorizationDetails)
    } else if name == kind_name(EndpointCapabilityKind::ChangePropagationPeriod) {
        Some(EndpointCapabilityKind::ChangePropagationPeriod)
    } else if name == kind_name(EndpointCapabilityKind::ChangeRetentionPeriod) {
        Some(EndpointCapabilityKind::ChangeRetentionPeriod)
    } else if name == kind_name(EndpointCapabilityKind::MaxConcurrentMultipart) {
        Some(EndpointCapabilityKind::MaxConcurrentMultipart)
    } else if name == kind_name(EndpointCapabilityKind::MaxDataObjectSize) {
        Some(EndpointCapabilityKind::MaxDataObjectSize)
    } else if name == kind_name(EndpointCapabilityKind::MaxPartSize) {
        Some(EndpointCapabilityKind::MaxPartSize)
    } else if name == kind_name(EndpointCapabilityKind::MaxSessionClientCount) {
        Some(EndpointCapabilityKind::MaxSessionClientCount)
    } else if name == kind_name(EndpointCapabilityKind::MaxSessionGlobalCount) {
        Some(EndpointCapabilityKind::MaxSessionGlobalCount)
    } else if name == kind_name(EndpointCapabilityKind::MaxWebSocketFramePayloadSize) {
        Some(EndpointCapabilityKind::MaxWebSocketFramePayloadSize)
    } else if name == kind_name(EndpointCapabilityKind::MaxWebSocketMessagePayloadSize) {
        Some(EndpointCapabilityKind::MaxWebSocketMessagePayloadSize)
    } else if name == kind_name(EndpointCapabilityKind::MultipartMessageTimeoutPeriod) {
        Some(EndpointCapabilityKind::MultipartMessageTimeoutPeriod)
    } else if name == kind_name(EndpointCapabilityKind::ResponseTimeoutPeriod) {
        Some(EndpointCapabilityKind::ResponseTimeoutPeriod)
    } else if name == kind_name(EndpointCapabilityKind::RequestSessionTimeoutPeriod) {
        Some(EndpointCapabilityKind::RequestSessionTimeoutPeriod)
    } else if name == kind_name(EndpointCapabilityKind::SessionEstablishmentTimeoutPeriod) {
        Some(EndpointCapabilityKind::SessionEstablishmentTimeoutPeriod)
    } else if name == kind_name(EndpointCapabilityKind::SupportsAlternateRequestUris) {
        Some(EndpointCapabilityKind::SupportsAlternateRequestUris)
    } else if name == kind_name(EndpointCapabilityKind::SupportsMessageHeaderExtensions) {
        Some(EndpointCapabilityKind::SupportsMessageHeaderExtensions)
    } else {
        None
    }
}

/// Every kind, in the schema's order.
pub open spec fn all_kinds() -> Seq<EndpointCapabilityKind> {
    seq![
        EndpointCapabilityKind::ActiveTimeoutPeriod,
        EndpointCapabilityKind::AuthorizationDetails,
        EndpointCapabilityKind::ChangePropagationPeriod,
        EndpointCapabilityKind::ChangeRetentionPeriod,
        EndpointCapabilityKind::MaxConcurrentMultipart,
        EndpointCapabilityKind::MaxDataObjectSize,
        EndpointCapabilityKind::MaxPartSize,
        EndpointCapabilityKind::MaxSessionClientCount,
        EndpointCapabilityKind::MaxSessionGlobalCount,
        EndpointCapabilityKind::MaxWebSocketFramePayloadSize,
        EndpointCapabilityKind::MaxWebSocketMessagePayloadSize,
        EndpointCapabilityKind::MultipartMessageTimeoutPeriod,
        EndpointCapabilityKind::ResponseTimeoutPeriod,
        EndpointCapabilityKind::RequestSessionTimeoutPeriod,
        EndpointCapabilityKind::SessionEstablishmentTimeoutPeriod,
        EndpointCapabilityKind::SupportsAlternateRequestUris,
        EndpointCapabilityKind::SupportsMessageHeaderExtensions,
    ]
}

/// The value a kind takes when negotiation leaves it out.
pub open spec fn rule_default(k: EndpointCapabilityKind) -> Option<DataValue> {
    match k {
        EndpointCapabilityKind::ActiveTimeoutPeriod => Some(DataValue::Long(3600)),
        EndpointCapabilityKind::ChangePropagationPeriod => Some(DataValue::Long(5)),
        EndpointCapabilityKind::ChangeRetentionPeriod => Some(DataValue::Long(86400)),
        EndpointCapabilityKind::MaxConcurrentMultipart => Some(DataValue::Long(1)),
        EndpointCapabilityKind::ResponseTimeoutPeriod => Some(DataValue::Long(300)),
        EndpointCapabilityKind::RequestSessionTimeoutPeriod => Some(DataValue::Long(45)),
        EndpointCapabilityKind::SessionEstablishmentTimeoutPeriod => Some(DataValue::Long(3600)),
        EndpointCapabilityKind::SupportsAlternateRequestUris => Some(DataValue::Boolean(false)),
        EndpointCapabilityKind::SupportsMessageHeaderExtensions => Some(DataValue::Boolean(false)),
        _ => None,
    }
}

/// The least value a kind may take.
pub open spec fn rule_min(k: EndpointCapabilityKind) -> Option<i64> {
    match k {
        EndpointCapabilityKind::ActiveTimeoutPeriod => Some(60i64),
        EndpointCapabilityKind::ChangePropagationPeriod => Some(1i64),
        EndpointCapabilityKind::ChangeRetentionPeriod => Some(86400i64),
        EndpointCapabilityKind::MaxConcurrentMultipart => Some(1i64),
        EndpointCapabilityKind::MaxDataObjectSize => Some(100000i64),
        EndpointCapabilityKind::MaxPartSize => Some(10000i64),
        EndpointCapabilityKind::MaxSessionClientCount => Some(2i64),
        EndpointCapabilityKind::MaxSessionGlobalCount => Some(2i64),
        EndpointCapabilityKind::ResponseTimeoutPeriod => Some(60i64),
        EndpointCapabilityKind::RequestSessionTimeoutPeriod => Some(5i64),
        EndpointCapabilityKind::SessionEstablishmentTimeoutPeriod => Some(60i64),
        _ => None,
    }
}

/// The greatest value a kind may take.
pub open spec fn rule_max(k: EndpointCapabilityKind) -> Option<i64> {
    match k {
        EndpointCapabilityKind::ChangePropagationPeriod => Some(600i64),
        EndpointCapabilityKind::MultipartMessageTimeoutPeriod => Some(60i64),
        _ => None,
    }
}

impl EndpointCapabilityKind {
    pub fn name(&self) -> (r: &'static str)
        ensures
            r@ == kind_name(*self),
    {
        match self {
            EndpointCapabilityKind::ActiveTimeoutPeriod => "ActiveTimeoutPeriod",
            EndpointCapabilityKind::AuthorizationDetails => "AuthorizationDetails",
            EndpointCapabilityKind::ChangePropagationPeriod => "ChangePropagationPeriod",
            EndpointCapabilityKind::ChangeRetentionPeriod => "ChangeRetentionPeriod",
            EndpointCapabilityKind::MaxConcurrentMultipart => "MaxConcurrentMultipart",
            EndpointCapabilityKind::MaxDataObjectSize => "MaxDataObjectSize",
            EndpointCapabilityKind::MaxPartSize => "MaxPartSize",
            EndpointCapabilityKind::MaxSessionClientCount => "MaxSessionClientCount",
            EndpointCapabilityKind::MaxSessionGlobalCount => "MaxSessionGlobalCount",
            EndpointCapabilityKind::MaxWebSocketFramePayloadSize => "MaxWebSocketFramePayloadSize",
            EndpointCapabilityKind::MaxWebSocketMessagePayloadSize => "MaxWebSocketMessagePayloadSize",
            EndpointCapabilityKind::MultipartMessageTimeoutPeriod => "MultipartMessageTimeoutPeriod",
            EndpointCapabilityKind::ResponseTimeoutPeriod => "ResponseTimeoutPeriod",
            EndpointCapabilityKind::RequestSessionTimeoutPeriod => "RequestSessionTimeoutPeriod",
            EndpointCapabilityKind::SessionEstablishmentTimeoutPeriod => "SessionEstablishmentTimeoutPeriod",
            EndpointCapabilityKind::SupportsAlternateRequestUris => "SupportsAlternateRequestUris",
            EndpointCapabilityKind::SupportsMessageHeaderExtensions => "SupportsMessageHeaderExtensions",
        }
    }

    /// The kind named exactly `name`.
    pub fn from_name(name: &str) -> (r: Option<EndpointCapabilityKind>)
        ensures
            r == kind_of(name@),
    {
        if same_text(name, "ActiveTimeoutPeriod") {
            return Some(EndpointCapabilityKind::ActiveTimeoutPeriod);
        }
        if same_text(name, "AuthorizationDetails") {
            return Some(EndpointCapabilityKind::AuthorizationDetails);
        }
        if same_text(name, "ChangePropagationPeriod") {
            return Some(EndpointCapabilityKind::ChangePropagationPeriod);
        }
        if same_text(name, "ChangeRetentionPeriod") {
            return Some(EndpointCapabilityKind::ChangeRetentionPeriod);
        }
        if same_text(name, "MaxConcurrentMultipart") {
            return Some(EndpointCapabilityKind::MaxConcurrentMultipart);
        }
        if same_text(name, "MaxDataObjectSize") {
            return Some(EndpointCapabilityKind::MaxDataObjectSize);
        }
        if same_text(name, "MaxPartSize") {
            return Some(EndpointCapabilityKind::MaxPartSize);
        }
        if same_text(name, "MaxSessionClientCount") {
            return Some(EndpointCapabilityKind::MaxSessionClientCount);
        }
        if same_text(name, "MaxSessionGlobalCount") {
            return Some(EndpointCapabilityKind::MaxSessionGlobalCount);
        }
        if same_text(name, "MaxWebSocketFramePayloadSize") {
            return Some(EndpointCapabilityKind::MaxWebSocketFramePayloadSize);
        }
        if same_text(name, "MaxWebSocketMessagePayloadSize") {
            return Some(EndpointCapabilityKind::MaxWebSocketMessagePayloadSize);
        }
        if same_text(name, "MultipartMessageTimeoutPeriod") {
            return Some(EndpointCapabilityKind::MultipartMessageTimeoutPeriod);
        }
        if same_text(name, "ResponseTimeoutPeriod") {
            return Some(EndpointCapabilityKind::ResponseTimeoutPeriod);
        }
        if same_text(name, "RequestSessionTimeoutPeriod") {
            return Some(EndpointCapabilityKind::RequestSessionTimeoutPeriod);
        }
        if same_text(name, "SessionEstablishmentTimeoutPeriod") {
            return Some(EndpointCapabilityKind::SessionEstablishmentTimeoutPeriod);
        }
        if same_text(name, "SupportsAlternateRequestUris") {
            return Some(EndpointCapabilityKind::SupportsAlternateRequestUris);
        }
        if same_text(name, "SupportsMessageHeaderExtensions") {
            return Some(EndpointCapabilityKind::SupportsMessageHeaderExtensions);
        }
        None
    }

    /// Every kind, in the schema's order.
    pub fn all() -> (r: Vec<EndpointCapabilityKind>)
        ensures
            r@ == all_kinds(),
    {
        let mut r: Vec<EndpointCapabilityKind> = Vec::new();
        r.push(EndpointCapabilityKind::ActiveTimeoutPeriod);
        r.push(EndpointCapabilityKind::AuthorizationDetails);
        r.push(EndpointCapabilityKind::ChangePropagationPeriod);
        r.push(EndpointCapabilityKind::ChangeRetentionPeriod);
        r.push(EndpointCapabilityKind::MaxConcurrentMultipart);
        r.push(EndpointCapabilityKind::MaxDataObjectSize);
        r.push(EndpointCapabilityKind::MaxPartSize);
        r.push(EndpointCapabilityKind::MaxSessionClientCount);
        r.push(EndpointCapabilityKind::MaxSessionGlobalCount);
        r.push(EndpointCapabilityKind::MaxWebSocketFramePayloadSize);
        r.push(EndpointCapabilityKind::MaxWebSocketMessagePayloadSize);
        r.push(EndpointCapabilityKind::MultipartMessageTimeoutPeriod);
        r.push(EndpointCapabilityKind::ResponseTimeoutPeriod);
        r.push(EndpointCapabilityKind::RequestSessionTimeoutPeriod);
        r.push(EndpointCapabilityKind::SessionEstablishmentTimeoutPeriod);
        r.push(EndpointCapabilityKind::SupportsAlternateRequestUris);
        r.push(EndpointCapabilityKind::SupportsMessageHeaderExtensions);
        assert(r@ =~= all_kinds());
        r
    }

    pub fn default(&self) -> (r: Option<DataValue>)
        ensures
            r == rule_default(*self),
    {
        match self {
            EndpointCapabilityKind::ActiveTimeoutPeriod => Some(DataValue::Long(3600)),
            EndpointCapabilityKind::ChangePropagationPeriod => Some(DataValue::Long(5)),
            EndpointCapabilityKind::ChangeRetentionPeriod => Some(DataValue::Long(86400)),
            EndpointCapabilityKind::MaxConcurrentMultipart => Some(DataValue::Long(1)),
            EndpointCapabilityKind::ResponseTimeoutPeriod => Some(DataValue::Long(300)),
            EndpointCapabilityKind::RequestSessionTimeoutPeriod => Some(DataValue::Long(45)),
            EndpointCapabilityKind::SessionEstablishmentTimeoutPeriod => Some(DataValue::Long(3600)),
            EndpointCapabilityKind::SupportsAlternateRequestUris => Some(DataValue::Boolean(false)),
            EndpointCapabilityKind::SupportsMessageHeaderExtensions => Some(DataValue::Boolean(false)),
            _ => None,
        }
    }

    pub fn min(&self) -> (r: Option<i64>)
        ensures
            r == rule_min(*self),
    {
        match self {
            EndpointCapabilityKind::ActiveTimeoutPeriod => Some(60),
            EndpointCapabilityKind::ChangePropagationPeriod => Some(1),
            EndpointCapabilityKind::ChangeRetentionPeriod => Some(86400),
            EndpointCapabilityKind::MaxConcurrentMultipart => Some(1),
            EndpointCapabilityKind::MaxDataObjectSize => Some(100000),
            EndpointCapabilityKind::MaxPartSize => Some(10000),
            EndpointCapabilityKind::MaxSessionClientCount => Some(2),
            EndpointCapabilityKind::MaxSessionGlobalCount => Some(2),
            EndpointCapabilityKind::ResponseTimeoutPeriod => Some(60),
            EndpointCapabilityKind::RequestSessionTimeoutPeriod => Some(5),
            EndpointCapabilityKind::SessionEstablishmentTimeoutPeriod => Some(60),
            _ => None,
        }
    }

    pub fn max(&self) -> (r: Option<i64>)
        ensures
            r == rule_max(*self),
    {
        match self {
            EndpointCapabilityKind::ChangePropagationPeriod => Some(600),
            EndpointCapabilityKind::MultipartMessageTimeoutPeriod => Some(60),
            _ => None,
        }
    }
}

/// Each kind is found again by its name.
pub proof fn lemma_kind_of_name(k: EndpointCapabilityKind)
    ensures
        kind_of(kind_name(k)) == Some(k),
{
    reveal_strlit("ActiveTimeoutPeriod");
    reveal_strlit("AuthorizationDetails");
    reveal_strlit("ChangePropagationPeriod");
    reveal_strlit("ChangeRetentionPeriod");
    reveal_strlit("MaxConcurrentMultipart");
    reveal_strlit("MaxDataObjectSize");
    reveal_strlit("MaxPartSize");
    reveal_strlit("MaxSessionClientCount");
    reveal_strlit("MaxSessionGlobalCount");
    reveal_strlit("MaxWebSocketFramePayloadSize");
    reveal_strlit("MaxWebSocketMessagePayloadSize");
    reveal_strlit("MultipartMessageTimeoutPeriod");
    reveal_strlit("ResponseTimeoutPeriod");
    reveal_strlit("RequestSessionTimeoutPeriod");
    reveal_strlit("SessionEstablishmentTimeoutPeriod");
    reveal_strlit("SupportsAlternateRequestUris");
    reveal_strlit("SupportsMessageHeaderExtensions");
    match k {
        EndpointCapabilityKind::ActiveTimeoutPeriod => {
        },
        EndpointCapabilityKind::AuthorizationDetails => {
            assert("AuthorizationDetails"@.len() != "ActiveTimeoutPeriod"@.len());
        },
        EndpointCapabilityKind::ChangePropagationPeriod => {
            assert("ChangePropagationPeriod"@.len() != "ActiveTimeoutPeriod"@.len());
            assert("ChangePropagationPeriod"@.len() != "AuthorizationDetails"@.len());
        },
        EndpointCapabilityKind::ChangeRetentionPeriod => {
            assert("ChangeRetentionPeriod"@.len() != "ActiveTimeoutPeriod"@.len());
            assert("ChangeRetentionPeriod"@.len() != "AuthorizationDetails"@.len());
            assert("ChangeRetentionPeriod"@.len() != "ChangePropagationPeriod"@.len());
        },
        EndpointCapabilityKind::MaxConcurrentMultipart => {
            assert("MaxConcurrentMultipart"@.len() != "ActiveTimeoutPeriod"@.len());
            assert("MaxConcurrentMultipart"@.len() != "AuthorizationDetails"@.len());
            assert("MaxConcurrentMultipart"@.len() != "ChangePropagationPeriod"@.len());
            assert("MaxConcurrentMultipart"@.len() != "ChangeRetentionPeriod"@.len());
        },
        EndpointCapabilityKind::MaxDataObjectSize => {
            assert("MaxDataObjectSize"@.len() != "ActiveTimeoutPeriod"@.len());
            assert("MaxDataObjectSize"@.len() != "AuthorizationDetails"@.len());
            assert("MaxDataObjectSize"@.len() != "ChangePropagationPeriod"@.len());
            assert("MaxDataObjectSize"@.len() != "ChangeRetentionPeriod"@.len());
            assert("MaxDataObjectSize"@.len() != "MaxConcurrentMultipart"@.len());
        },
        EndpointCapabilityKind::MaxPartSize => {
            assert("MaxPartSize"@.len() != "ActiveTimeoutPeriod"@.len());
            assert("MaxPartSize"@.len() != "AuthorizationDetails"@.len());
            assert("MaxPartSize"@.len() != "ChangePropagationPeriod"@.len());
            assert("MaxPartSize"@.len() != "ChangeRetentionPeriod"@.len());
            assert("MaxPartSize"@.len() != "MaxConcurrentMultipart"@.len());
            assert("MaxPartSize"@.len() != "MaxDataObjectSize"@.len());
        },
        EndpointCapabilityKind::MaxSessionClientCount => {
            assert("MaxSessionClientCount"@.len() != "ActiveTimeoutPeriod"@.len());
            assert("MaxSessionClientCount"@.len() != "AuthorizationDetails"@.len());
            assert("MaxSessionClientCount"@.len() != "ChangePropagationPeriod"@.len());
            assert("MaxSessionClientCount"@[0] != "ChangeRetentionPeriod"@[0]);
            assert("MaxSessionClientCount"@.len() != "MaxConcurrentMultipart"@.len());
            assert("MaxSessionClientCount"@.len() != "MaxDataObjectSize"@.len());
            assert("MaxSessionClientCount"@.len() != "MaxPartSize"@.len());
        },
        EndpointCapabilityKind::MaxSessionGlobalCount => {
            assert("MaxSessionGlobalCount"@.len() != "ActiveTimeoutPeriod"@.len());
            assert("MaxSessionGlobalCount"@.len() != "AuthorizationDetails"@.len());
            assert("MaxSessionGlobalCount"@.len() != "ChangePropagationPeriod"@.len());
            assert("MaxSessionGlobalCount"@[0] != "ChangeRetentionPeriod"@[0]);
            assert("MaxSessionGlobalCount"@.len() != "MaxConcurrentMultipart"@.len());
            assert("MaxSessionGlobalCount"@.len() != "MaxDataObjectSize"@.len());
            assert("MaxSessionGlobalCount"@.len() != "MaxPartSize"@.len());
            assert("MaxSessionGlobalCount"@[10] != "MaxSessionClientCount"@[10]);
        },
        EndpointCapabilityKind::MaxWebSocketFramePayloadSize => {
            assert("MaxWebSocketFramePayloadSize"@.len() != "ActiveTimeoutPeriod"@.len());
            assert("MaxWebSocketFramePayloadSize"@.len() != "AuthorizationDetails"@.len());
            assert("MaxWebSocketFramePayloadSize"@.len() != "ChangePropagationPeriod"@.len());
            assert("MaxWebSocketFramePayloadSize"@.len() != "ChangeRetentionPeriod"@.len());
            assert("MaxWebSocketFramePayloadSize"@.len() != "MaxConcurrentMultipart"@.len());
            assert("MaxWebSocketFramePayloadSize"@.len() != "MaxDataObjectSize"@.len());
            assert("MaxWebSocketFramePayloadSize"@.len() != "MaxPartSize"@.len());
            assert("MaxWebSocketFramePayloadSize"@.len() != "MaxSessionClientCount"@.len());
            assert("MaxWebSocketFramePayloadSize"@.len() != "MaxSessionGlobalCount"@.len());
        },
        EndpointCapabilityKind::MaxWebSocketMessagePayloadSize => {
            assert("MaxWebSocketMessagePayloadSize"@.len() != "ActiveTimeoutPeriod"@.len());
            assert("MaxWebSocketMessagePayloadSize"@.len() != "AuthorizationDetails"@.len());
            assert("MaxWebSocketMessagePayloadSize"@.len() != "ChangePropagationPeriod"@.len());
            assert("MaxWebSocketMessagePayloadSize"@.len() != "ChangeRetentionPeriod"@.len());
            assert("MaxWebSocketMessagePayloadSize"@.len() != "MaxConcurrentMultipart"@.len());
            assert("MaxWebSocketMessagePayloadSize"@.len() != "MaxDataObjectSize"@.len());
            assert("MaxWebSocketMessagePayloadSize"@.len() != "MaxPartSize"@.len());
            assert("MaxWebSocketMessagePayloadSize"@.len() != "MaxSessionClientCount"@.len());
            assert("MaxWebSocketMessagePayloadSize"@.len() != "MaxSessionGlobalCount"@.len());
            assert("MaxWebSocketMessagePayloadSize"@.len() != "MaxWebSocketFramePayloadSize"@.len());
        },
        EndpointCapabilityKind::MultipartMessageTimeoutPeriod => {
            assert("MultipartMessageTimeoutPeriod"@.len() != "ActiveTimeoutPeriod"@.len());
            assert("MultipartMessageTimeoutPeriod"@.len() != "AuthorizationDetails"@.len());
            assert("MultipartMessageTimeoutPeriod"@.len() != "ChangePropagationPeriod"@.len());
            assert("MultipartMessageTimeoutPeriod"@.len() != "ChangeRetentionPeriod"@.len());
            assert("MultipartMessageTimeoutPeriod"@.len() != "MaxConcurrentMultipart"@.len());
            assert("MultipartMessageTimeoutPeriod"@.len() != "MaxDataObjectSize"@.len());
            assert("MultipartMessageTimeoutPeriod"@.len() != "MaxPartSize"@.len());
            assert("MultipartMessageTimeoutPeriod"@.len() != "MaxSessionClientCount"@.len());
            assert("MultipartMessageTimeoutPeriod"@.len() != "MaxSessionGlobalCount"@.len());
            assert("MultipartMessageTimeoutPeriod"@.len() != "MaxWebSocketFramePayloadSize"@.len());
            assert("MultipartMessageTimeoutPeriod"@.len() != "MaxWebSocketMessagePayloadSize"@.len());
        },
        EndpointCapabilityKind::ResponseTimeoutPeriod => {
            assert("ResponseTimeoutPeriod"@.len() != "ActiveTimeoutPeriod"@.len());
            assert("ResponseTimeoutPeriod"@.len() != "AuthorizationDetails"@.len());
            assert("ResponseTimeoutPeriod"@.len() != "ChangePropagationPeriod"@.len());
            assert("ResponseTimeoutPeriod"@[0] != "ChangeRetentionPeriod"@[0]);
            assert("ResponseTimeoutPeriod"@.len() != "MaxConcurrentMultipart"@.len());
            assert("ResponseTimeoutPeriod"@.len() != "MaxDataObjectSize"@.len());
            assert("ResponseTimeoutPeriod"@.len() != "MaxPartSize"@.len());
            assert("ResponseTimeoutPeriod"@[0] != "MaxSessionClientCount"@[0]);
            assert("ResponseTimeoutPeriod"@[0] != "MaxSessionGlobalCount"@[0]);
            assert("ResponseTimeoutPeriod"@.len() != "MaxWebSocketFramePayloadSize"@.len());
            assert("ResponseTimeoutPeriod"@.len() != "MaxWebSocketMessagePayloadSize"@.len());
            assert("ResponseTimeoutPeriod"@.len() != "MultipartMessageTimeoutPeriod"@.len());
        },
        EndpointCapabilityKind::RequestSessionTimeoutPeriod => {
            assert("RequestSessionTimeoutPeriod"@.len() != "ActiveTimeoutPeriod"@.len());
            assert("RequestSessionTimeoutPeriod"@.len() != "AuthorizationDetails"@.len());
            assert("RequestSessionTimeoutPeriod"@.len() != "ChangePropagationPeriod"@.len());
            assert("RequestSessionTimeoutPeriod"@.len() != "ChangeRetentionPeriod"@.len());
            assert("RequestSessionTimeoutPeriod"@.len() != "MaxConcurrentMultipart"@.len());
            assert("RequestSessionTimeoutPeriod"@.len() != "MaxDataObjectSize"@.len());
            assert("RequestSessionTimeoutPeriod"@.len() != "MaxPartSize"@.len());
            assert("RequestSessionTimeoutPeriod"@.len() != "MaxSessionClientCount"@.len());
            assert("RequestSessionTimeoutPeriod"@.len() != "MaxSessionGlobalCount"@.len());
            assert("RequestSessionTimeoutPeriod"@.len() != "MaxWebSocketFramePayloadSize"@.len());
            assert("RequestSessionTimeoutPeriod"@.len() != "MaxWebSocketMessagePayloadSize"@.len());
            assert("RequestSessionTimeoutPeriod"@.len() != "MultipartMessageTimeoutPeriod"@.len());
            assert("RequestSessionTimeoutPeriod"@.len() != "ResponseTimeoutPeriod"@.len());
        },
        EndpointCapabilityKind::SessionEstablishmentTimeoutPeriod => {
            assert("SessionEstablishmentTimeoutPeriod"@.len() != "ActiveTimeoutPeriod"@.len());
            assert("SessionEstablishmentTimeoutPeriod"@.len() != "AuthorizationDetails"@.len());
            assert("SessionEstablishmentTimeoutPeriod"@.len() != "ChangePropagationPeriod"@.len());
            assert("SessionEstablishmentTimeoutPeriod"@.len() != "ChangeRetentionPeriod"@.len());
            assert("SessionEstablishmentTimeoutPeriod"@.len() != "MaxConcurrentMultipart"@.len());
            assert("SessionEstablishmentTimeoutPeriod"@.len() != "MaxDataObjectSize"@.len());
            assert("SessionEstablishmentTimeoutPeriod"@.len() != "MaxPartSize"@.len());
            assert("SessionEstablishmentTimeoutPeriod"@.len() != "MaxSessionClientCount"@.len());
            assert("SessionEstablishmentTimeoutPeriod"@.len() != "MaxSessionGlobalCount"@.len());
            assert("SessionEstablishmentTimeoutPeriod"@.len() != "MaxWebSocketFramePayloadSize"@.len());
            assert("SessionEstablishmentTimeoutPeriod"@.len() != "MaxWebSocketMessagePayloadSize"@.len());
            assert("SessionEstablishmentTimeoutPeriod"@.len() != "MultipartMessageTimeoutPeriod"@.len());
            assert("SessionEstablishmentTimeoutPeriod"@.len() != "ResponseTimeoutPeriod"@.len());
            assert("SessionEstablishmentTimeoutPeriod"@.len() != "RequestSessionTimeoutPeriod"@.len());
        },
        EndpointCapabilityKind::SupportsAlternateRequestUris => {
            assert("SupportsAlternateRequestUris"@.len() != "ActiveTimeoutPeriod"@.len());
            assert("SupportsAlternateRequestUris"@.len() != "AuthorizationDetails"@.len());
            assert("SupportsAlternateRequestUris"@.len() != "ChangePropagationPeriod"@.len());
            assert("SupportsAlternateRequestUris"@.len() != "ChangeRetentionPeriod"@.len());
            assert("SupportsAlternateRequestUris"@.len() != "MaxConcurrentMultipart"@.len());
            assert("SupportsAlternateRequestUris"@.len() != "MaxDataObjectSize"@.len());
            assert("SupportsAlternateRequestUris"@.len() != "MaxPartSize"@.len());
            assert("SupportsAlternateRequestUris"@.len() != "MaxSessionClientCount"@.len());
            assert("SupportsAlternateRequestUris"@.len() != "MaxSessionGlobalCount"@.len());
            assert("SupportsAlternateRequestUris"@[0] != "MaxWebSocketFramePayloadSize"@[0]);
            assert("SupportsAlternateRequestUris"@.len() != "MaxWebSocketMessagePayloadSize"@.len());
            assert("SupportsAlternateRequestUris"@.len() != "MultipartMessageTimeoutPeriod"@.len());
            assert("SupportsAlternateRequestUris"@.len() != "ResponseTimeoutPeriod"@.len());
            assert("SupportsAlternateRequestUris"@.len() != "RequestSessionTimeoutPeriod"@.len());
            assert("SupportsAlternateRequestUris"@.len() != "SessionEstablishmentTimeoutPeriod"@.len());
        },
        EndpointCapabilityKind::SupportsMessageHeaderExtensions => {
            assert("SupportsMessageHeaderExtensions"@.len() != "ActiveTimeoutPeriod"@.len());
            assert("SupportsMessageHeaderExtensions"@.len() != "AuthorizationDetails"@.len());
            assert("SupportsMessageHeaderExtensions"@.len() != "ChangePropagationPeriod"@.len());
            assert("SupportsMessageHeaderExtensions"@.len() != "ChangeRetentionPeriod"@.len());
            assert("SupportsMessageHeaderExtensions"@.len() != "MaxConcurrentMultipart"@.len());
            assert("SupportsMessageHeaderExtensions"@.len() != "MaxDataObjectSize"@.len());
            assert("SupportsMessageHeaderExtensions"@.len() != "MaxPartSize"@.len());
            assert("SupportsMessageHeaderExtensions"@.len() != "MaxSessionClientCount"@.len());
            assert("SupportsMessageHeaderExtensions"@.len() != "MaxSessionGlobalCount"@.len());
            assert("SupportsMessageHeaderExtensions"@.len() != "MaxWebSocketFramePayloadSize"@.len());
            assert("SupportsMessageHeaderExtensions"@.len() != "MaxWebSocketMessagePayloadSize"@.len());
            assert("SupportsMessageHeaderExtensions"@.len() != "MultipartMessageTimeoutPeriod"@.len());
            assert("SupportsMessageHeaderExtensions"@.len() != "ResponseTimeoutPeriod"@.len());
            assert("SupportsMessageHeaderExtensions"@.len() != "RequestSessionTimeoutPeriod"@.len());
            assert("SupportsMessageHeaderExtensions"@.len() != "SessionEstablishmentTimeoutPeriod"@.len());
            assert("SupportsMessageHeaderExtensions"@.len() != "SupportsAlternateRequestUris"@.len());
        },
    }
}


/// Relies on the derived `Clone` of etptypes' `DataValue`: an equal value.
pub assume_specification[ <EtpDataValue as Clone>::clone ](v: &EtpDataValue) -> (r: EtpDataValue)
    ensures
        r == *v,
;

impl DataValue {
    /// A copy of the value.
    pub fn copy(&self) -> (r: DataValue)
        ensures
            r == *self,
    {
        match self {
            DataValue::Boolean(b) => DataValue::Boolean(*b),
            DataValue::Int(x) => DataValue::Int(*x),
            DataValue::Long(x) => DataValue::Long(*x),
            DataValue::Real(t, v) => DataValue::Real(*t, v.clone()),
            DataValue::String(s) => DataValue::String(s.clone()),
            DataValue::Other(v) => DataValue::Other(v.clone()),
        }
    }

    /// The integer the value stands for, if any.
    pub fn integer(&self) -> (r: Option<i64>)
        ensures
            match as_integer(*self) {
                Some(x) => r == Some(x as i64),
                None => r is None,
            },
    {
        match self {
            DataValue::Int(x) => Some(*x as i64),
            DataValue::Long(x) => Some(*x),
            DataValue::Real(t, _) => Some(*t),
            DataValue::String(s) => parse_i64(s.as_str()),
            _ => None,
        }
    }

    pub fn boolean(&self) -> (r: Option<bool>)
        ensures
            r == as_boolean(*self),
    {
        match self {
            DataValue::Boolean(b) => Some(*b),
            _ => None,
        }
    }
}

/// `v` raised to the kind's minimum, then lowered to its maximum.
pub open spec fn clamp_to_rules(k: EndpointCapabilityKind, v: int) -> int {
    let raised = match rule_min(k) {
        Some(m) => if m as int > v {
            m as int
        } else {
            v
        },
        None => v,
    };
    match rule_max(k) {
        Some(m) => if (m as int) < raised {
            m as int
        } else {
            raised
        },
        None => raised,
    }
}

/// What two values of one kind reduce to: the lesser integer, kept within
/// the kind's bounds, where both are integers; the conjunction where both
/// are booleans; nothing otherwise.
pub open spec fn reduce(k: EndpointCapabilityKind, a: DataValue, b: DataValue) -> Option<DataValue> {
    match (as_integer(a), as_integer(b)) {
        (Some(x), Some(y)) => Some(
            DataValue::Long(
                clamp_to_rules(
                    k,
                    if x < y {
                        x
                    } else {
                        y
                    },
                ) as i64,
            ),
        ),
        _ => match (as_boolean(a), as_boolean(b)) {
            (Some(p), Some(q)) => Some(DataValue::Boolean(p && q)),
            _ => None,
        },
    }
}

/// The negotiated value of `key`. A known kind takes what both sides'
/// values reduce to, else its default, if it has one. Any other key keeps
/// the value that `a` gives it.
pub open spec fn negotiated_endpoint(a: Entries, b: Entries, key: Seq<char>) -> Option<DataValue> {
    match kind_of(key) {
        None => lookup(a, key),
        Some(k) => match (lookup(a, key), lookup(b, key)) {
            (Some(x), Some(y)) => match reduce(k, x, y) {
                Some(v) => Some(v),
                None => rule_default(k),
            },
            _ => rule_default(k),
        },
    }
}

/// Reduces two values of kind `k`.
pub fn reduce_values(k: EndpointCapabilityKind, a: &DataValue, b: &DataValue) -> (r: Option<DataValue>)
    ensures
        r == reduce(k, *a, *b),
{
    match (a.integer(), b.integer()) {
        (Some(x), Some(y)) => {
            let mut v: i64 = if x < y {
                x
            } else {
                y
            };
            match k.min() {
                Some(m) => {
                    if m > v {
                        v = m;
                    }
                },
                None => {},
            }
            match k.max() {
                Some(m) => {
                    if m < v {
                        v = m;
                    }
                },
                None => {},
            }
            Some(DataValue::Long(v))
        },
        _ => match (a.boolean(), b.boolean()) {
            (Some(p), Some(q)) => Some(DataValue::Boolean(p && q)),
            _ => None,
        },
    }
}

/// The pairwise pass: keys of `a` in `s`, reduced against `b` where known.
pub open spec fn paired(s: Entries, b: Entries, q: Seq<char>) -> Option<DataValue> {
    match lookup(s, q) {
        None => None,
        Some(x) => match kind_of(q) {
            None => Some(x),
            Some(k) => match lookup(b, q) {
                Some(y) => reduce(k, x, y),
                None => None,
            },
        },
    }
}

/// After the pairwise pass, the defaults of the first `t` kinds.
pub open spec fn with_defaults(a: Entries, b: Entries, q: Seq<char>, t: int) -> Option<DataValue> {
    match paired(a, b, q) {
        Some(v) => Some(v),
        None => match kind_of(q) {
            Some(k) => if all_kinds().subrange(0, t).contains(k) {
                rule_default(k)
            } else {
                None
            },
            None => None,
        },
    }
}

proof fn lemma_kind_of_is_name(q: Seq<char>)
    ensures
        kind_of(q) matches Some(k) ==> q == kind_name(k),
{
}

proof fn lemma_all_kinds_contains(k: EndpointCapabilityKind)
    ensures
        all_kinds().contains(k),
{
    let s = all_kinds();
    match k {
        EndpointCapabilityKind::ActiveTimeoutPeriod => assert(s[0] == k),
        EndpointCapabilityKind::AuthorizationDetails => assert(s[1] == k),
        EndpointCapabilityKind::ChangePropagationPeriod => assert(s[2] == k),
        EndpointCapabilityKind::ChangeRetentionPeriod => assert(s[3] == k),
        EndpointCapabilityKind::MaxConcurrentMultipart => assert(s[4] == k),
        EndpointCapabilityKind::MaxDataObjectSize => assert(s[5] == k),
        EndpointCapabilityKind::MaxPartSize => assert(s[6] == k),
        EndpointCapabilityKind::MaxSessionClientCount => assert(s[7] == k),
        EndpointCapabilityKind::MaxSessionGlobalCount => assert(s[8] == k),
        EndpointCapabilityKind::MaxWebSocketFramePayloadSize => assert(s[9] == k),
        EndpointCapabilityKind::MaxWebSocketMessagePayloadSize => assert(s[10] == k),
        EndpointCapabilityKind::MultipartMessageTimeoutPeriod => assert(s[11] == k),
        EndpointCapabilityKind::ResponseTimeoutPeriod => assert(s[12] == k),
        EndpointCapabilityKind::RequestSessionTimeoutPeriod => assert(s[13] == k),
        EndpointCapabilityKind::SessionEstablishmentTimeoutPeriod => assert(s[14] == k),
        EndpointCapabilityKind::SupportsAlternateRequestUris => assert(s[15] == k),
        EndpointCapabilityKind::SupportsMessageHeaderExtensions => assert(s[16] == k),
    }
}

/// Negotiates two endpoint capability maps: see `negotiated_endpoint`.
pub fn negotiate_endpoint_capabilities(ca: &CapabilityMap, cb: &CapabilityMap) -> (r: CapabilityMap)
    requires
        ca.wf(),
        cb.wf(),
    ensures
        r.wf(),
        forall|key: Seq<char>| #[trigger] lookup(r@, key) == negotiated_endpoint(ca@, cb@, key),
{
    let mut nego = CapabilityMap::new();
    let mut i: usize = 0;
    while i < ca.len()
        invariant
            i <= ca@.len(),
            ca.wf(),
            cb.wf(),
            nego.wf(),
            forall|q: Seq<char>| #[trigger]
                lookup(nego@, q) == paired(ca@.subrange(0, i as int), cb@, q),
        decreases ca@.len() - i,
    {
        let (key, va) = ca.entry(i);
        let ghost pre = ca@.subrange(0, i as int);
        proof {
            assert(ca@.subrange(0, i + 1) =~= pre.push(ca@[i as int]));
            lemma_lookup_absent(pre, key@);
            assert forall|j: int| 0 <= j < pre.len() implies pre[j].0 != key@ by {
                assert(pre[j] == ca@[j]);
            }
        }
        match EndpointCapabilityKind::from_name(key.as_str()) {
            Some(kind) => {
                match cb.get(key.as_str()) {
                    Some(vb) => {
                        match reduce_values(kind, va, vb) {
                            Some(v) => {
                                nego.insert(key.clone(), v);
                            },
                            None => {},
                        }
                    },
                    None => {},
                }
            },
            None => {
                nego.insert(key.clone(), va.copy());
            },
        }
        proof {
            assert forall|q: Seq<char>| #[trigger]
                lookup(nego@, q) == paired(ca@.subrange(0, i + 1), cb@, q) by {
                lemma_lookup_push(pre, ca@[i as int], q);
            }
        }
        i = i + 1;
    }
    assert(ca@.subrange(0, ca@.len() as int) =~= ca@);
    let kinds = EndpointCapabilityKind::all();
    let mut t: usize = 0;
    while t < kinds.len()
        invariant
            t <= kinds@.len(),
            kinds@ == all_kinds(),
            nego.wf(),
            forall|q: Seq<char>| #[trigger]
                lookup(nego@, q) == with_defaults(ca@, cb@, q, t as int),
        decreases kinds@.len() - t,
    {
        let kind = kinds[t];
        let name = kind.name();
        proof {
            lemma_kind_of_name(kind);
            assert(all_kinds().subrange(0, t + 1) =~= all_kinds().subrange(0, t as int).push(kind));
        }
        let ghost before = nego@;
        let ghost sub = all_kinds().subrange(0, t as int);
        let present = nego.contains_key(name);
        if !present {
            match kind.default() {
                Some(d) => {
                    nego.insert(String::from_str(name), d);
                },
                None => {},
            }
        }
        proof {
            assert(sub.push(kind)[t as int] == kind);
            assert forall|q: Seq<char>| #[trigger]
                lookup(nego@, q) == with_defaults(ca@, cb@, q, t + 1) by {
                lemma_kind_of_is_name(q);
                assert(lookup(before, q) == with_defaults(ca@, cb@, q, t as int));
                if q == name@ {
                    assert(kind_of(q) == Some(kind));
                    assert(sub.push(kind).contains(kind));
                } else {
                    if let Some(k) = kind_of(q) {
                        assert(k != kind);
                        assert(sub.push(kind).contains(k) == sub.contains(k)) by {
                            if sub.push(kind).contains(k) {
                                let j = choose|j: int| 0 <= j < sub.push(kind).len() && sub.push(kind)[j] == k;
                                assert(j < sub.len());
                                assert(sub[j] == k);
                            }
                            if sub.contains(k) {
                                let j = choose|j: int| 0 <= j < sub.len() && sub[j] == k;
                                assert(sub.push(kind)[j] == k);
                            }
                        }
                    }
                    assert(lookup(nego@, q) == lookup(before, q));
                }
            }
        }
        t = t + 1;
    }
    proof {
        assert(all_kinds().subrange(0, 17) =~= all_kinds());
        assert forall|key: Seq<char>| #[trigger]
            lookup(nego@, key) == negotiated_endpoint(ca@, cb@, key) by {
            if let Some(k) = kind_of(key) {
                lemma_all_kinds_contains(k);
            }
        }
    }
    nego
}


/// The capabilities a data object type may declare.
#[derive(Debug, PartialEq, Eq, Structural, Clone, Copy)]
pub enum DataObjectCapabilities {
    SupportsGet,
    SupportsPut,
    SupportsDelete,
}

pub open spec fn data_object_capability_name(c: DataObjectCapabilities) -> Seq<char> {
    match c {
        DataObjectCapabilities::SupportsGet => "SupportsGet"@,
        DataObjectCapabilities::SupportsPut => "SupportsPut"@,
        DataObjectCapabilities::SupportsDelete => "SupportsDelete"@,
    }
}

/// The data object capability named exactly `name`.
pub open spec fn data_object_capability_of(name: Seq<char>) -> Option<DataObjectCapabilities> {
    if name == data_object_capability_name(DataObjectCapabilities::SupportsGet) {
        Some(DataObjectCapabilities::SupportsGet)
    } else if name == data_object_capability_name(DataObjectCapabilities::SupportsPut) {
        Some(DataObjectCapabilities::SupportsPut)
    } else if name == data_object_capability_name(DataObjectCapabilities::SupportsDelete) {
        Some(DataObjectCapabilities::SupportsDelete)
    } else {
        None
    }
}

impl DataObjectCapabilities {
    /// Every data object capability, in order.
    pub fn iter() -> (r: Vec<DataObjectCapabilities>)
        ensures
            r@ == seq![
                DataObjectCapabilities::SupportsGet,
                DataObjectCapabilities::SupportsPut,
                DataObjectCapabilities::SupportsDelete,
            ],
    {
        let mut r: Vec<DataObjectCapabilities> = Vec::new();
        r.push(DataObjectCapabilities::SupportsGet);
        r.push(DataObjectCapabilities::SupportsPut);
        r.push(DataObjectCapabilities::SupportsDelete);
        assert(r@ =~= seq![
            DataObjectCapabilities::SupportsGet,
            DataObjectCapabilities::SupportsPut,
            DataObjectCapabilities::SupportsDelete,
        ]);
        r
    }

    pub fn name(&self) -> (r: &'static str)
        ensures
            r@ == data_object_capability_name(*self),
    {
        match self {
            DataObjectCapabilities::SupportsGet => "SupportsGet",
            DataObjectCapabilities::SupportsPut => "SupportsPut",
            DataObjectCapabilities::SupportsDelete => "SupportsDelete",
        }
    }

    /// The name, as an owned string.
    pub fn to_string(&self) -> (r: String)
        ensures
            r@ == data_object_capability_name(*self),
    {
        String::from_str(self.name())
    }

    /// The capability named exactly `name`.
    pub fn from_name(name: &str) -> (r: Option<DataObjectCapabilities>)
        ensures
            r == data_object_capability_of(name@),
    {
        if same_text(name, "SupportsGet") {
            Some(DataObjectCapabilities::SupportsGet)
        } else if same_text(name, "SupportsPut") {
            Some(DataObjectCapabilities::SupportsPut)
        } else if same_text(name, "SupportsDelete") {
            Some(DataObjectCapabilities::SupportsDelete)
        } else {
            None
        }
    }
}

proof fn lemma_data_object_capability_of_name(c: DataObjectCapabilities)
    ensures
        data_object_capability_of(data_object_capability_name(c)) == Some(c),
{
    reveal_strlit("SupportsGet");
    reveal_strlit("SupportsPut");
    reveal_strlit("SupportsDelete");
    assert("SupportsPut"@[8] != "SupportsGet"@[8]);
    assert("SupportsDelete"@.len() != "SupportsGet"@.len());
    assert("SupportsDelete"@.len() != "SupportsPut"@.len());
}

/// A data object capability agreed by two sides: where both declare it as a
/// boolean, the conjunction; otherwise it is left out.
pub open spec fn agreed_flag(me: Entries, target: Entries, q: Seq<char>) -> Option<DataValue> {
    match data_object_capability_of(q) {
        Some(_) => match (lookup(me, q), lookup(target, q)) {
            (Some(DataValue::Boolean(x)), Some(DataValue::Boolean(y))) => Some(
                DataValue::Boolean(x && y),
            ),
            _ => None,
        },
        None => None,
    }
}

/// A data object type with the capabilities declared for it.
pub struct SupportedDataObject {
    pub qualified_type: String,
    pub data_object_capabilities: CapabilityMap,
}

/// Reduces the data object capabilities that two sides declare.
pub fn negotiate_data_object_flags(me: &CapabilityMap, target: &CapabilityMap) -> (r: CapabilityMap)
    requires
        me.wf(),
        target.wf(),
    ensures
        r.wf(),
        forall|q: Seq<char>| #[trigger] lookup(r@, q) == agreed_flag(me@, target@, q),
{
    let mut r = CapabilityMap::new();
    let all = DataObjectCapabilities::iter();
    let ghost names = all@.map_values(|c: DataObjectCapabilities| data_object_capability_name(c));
    let mut t: usize = 0;
    while t < all.len()
        invariant
            t <= all@.len(),
            all@ == seq![
                DataObjectCapabilities::SupportsGet,
                DataObjectCapabilities::SupportsPut,
                DataObjectCapabilities::SupportsDelete,
            ],
            me.wf(),
            target.wf(),
            r.wf(),
            forall|q: Seq<char>| #[trigger]
                lookup(r@, q) == if (exists|j: int|
                    0 <= j < t && data_object_capability_name(all@[j]) == q) {
                    agreed_flag(me@, target@, q)
                } else {
                    None
                },
        decreases all@.len() - t,
    {
        let c = all[t];
        let name = c.name();
        proof {
            lemma_data_object_capability_of_name(c);
        }
        let ghost before = r@;
        match (me.get(name), target.get(name)) {
            (Some(DataValue::Boolean(x)), Some(DataValue::Boolean(y))) => {
                r.insert(String::from_str(name), DataValue::Boolean(*x && *y));
            },
            _ => {},
        }
        proof {
            assert forall|q: Seq<char>| #[trigger]
                lookup(r@, q) == if (exists|j: int|
                    0 <= j < t + 1 && data_object_capability_name(all@[j]) == q) {
                    agreed_flag(me@, target@, q)
                } else {
                    None
                } by {
                if q == name@ {
                    assert(data_object_capability_name(all@[t as int]) == q);
                } else {
                    if exists|j: int| 0 <= j < t + 1 && data_object_capability_name(all@[j]) == q {
                        let j = choose|j: int|
                            0 <= j < t + 1 && data_object_capability_name(all@[j]) == q;
                        assert(j < t);
                    }
                }
            }
        }
        t = t + 1;
    }
    proof {
        assert forall|q: Seq<char>| #[trigger] lookup(r@, q) == agreed_flag(me@, target@, q) by {
            if let Some(c) = data_object_capability_of(q) {
                let j: int = match c {
                    DataObjectCapabilities::SupportsGet => 0,
                    DataObjectCapabilities::SupportsPut => 1,
                    DataObjectCapabilities::SupportsDelete => 2,
                };
                assert(data_object_capability_name(all@[j]) == q);
            }
        }
    }
    r
}

/// Index pairs `(i, j)`, by `i` then `j`, for which `matches(i, j)` holds,
/// over `i < n` and `j < m`.
pub open spec fn index_pairs(n: int, m: int, matches: spec_fn(int, int) -> bool) -> Seq<(int, int)>
    decreases n, m,
{
    if n <= 0 {
        Seq::empty()
    } else {
        index_pairs(n - 1, m, matches) + row_pairs(n - 1, m, matches)
    }
}

/// The pairs `(i, j)` with `j < m` for which `matches(i, j)` holds.
pub open spec fn row_pairs(i: int, m: int, matches: spec_fn(int, int) -> bool) -> Seq<(int, int)>
    decreases m,
{
    if m <= 0 {
        Seq::empty()
    } else {
        row_pairs(i, m - 1, matches) + if matches(i, m - 1) {
            seq![(i, m - 1)]
        } else {
            Seq::empty()
        }
    }
}

/// Whether two data object descriptors are of the same type.
pub open spec fn same_data_object_type(me: Seq<SupportedDataObject>, target: Seq<SupportedDataObject>) -> spec_fn(int, int) -> bool {
    |i: int, j: int| me[i].qualified_type@ == target[j].qualified_type@
}

/// Whether `r[k]` is the reduction of the pair `pairs[k]`, for every `k`.
pub open spec fn reduces_data_objects(
    r: Seq<SupportedDataObject>,
    pairs: Seq<(int, int)>,
    me: Seq<SupportedDataObject>,
    target: Seq<SupportedDataObject>,
) -> bool {
    r.len() == pairs.len() && forall|k: int|
        0 <= k < r.len() ==> {
            let (i, j) = #[trigger] pairs[k];
            &&& r[k].qualified_type@ == me[i].qualified_type@
            &&& r[k].data_object_capabilities.wf()
            &&& forall|q: Seq<char>| #[trigger]
                lookup(r[k].data_object_capabilities@, q) == agreed_flag(
                    me[i].data_object_capabilities@,
                    target[j].data_object_capabilities@,
                    q,
                )
        }
}

/// Pairs the data object types that both sides support, by qualified type,
/// in the order of `cap_me` then `cap_target`, each with the capabilities
/// that both agree on.
pub fn negotiate_supported_data_object(
    cap_me: &Vec<SupportedDataObject>,
    cap_target: &Vec<SupportedDataObject>,
) -> (r: Vec<SupportedDataObject>)
    requires
        forall|i: int| 0 <= i < cap_me@.len() ==> (#[trigger] cap_me@[i]).data_object_capabilities.wf(),
        forall|j: int|
            0 <= j < cap_target@.len() ==> (#[trigger] cap_target@[j]).data_object_capabilities.wf(),
    ensures
        reduces_data_objects(
            r@,
            index_pairs(
                cap_me@.len() as int,
                cap_target@.len() as int,
                same_data_object_type(cap_me@, cap_target@),
            ),
            cap_me@,
            cap_target@,
        ),
{
    let ghost f = same_data_object_type(cap_me@, cap_target@);
    let ghost m = cap_target@.len() as int;
    let mut nego: Vec<SupportedDataObject> = Vec::new();
    let mut i: usize = 0;
    while i < cap_me.len()
        invariant
            i <= cap_me@.len(),
            f == same_data_object_type(cap_me@, cap_target@),
            m == cap_target@.len(),
            forall|i: int| 0 <= i < cap_me@.len() ==> (#[trigger] cap_me@[i]).data_object_capabilities.wf(),
            forall|j: int|
                0 <= j < cap_target@.len() ==> (#[trigger] cap_target@[j]).data_object_capabilities.wf(),
            reduces_data_objects(nego@, index_pairs(i as int, m, f), cap_me@, cap_target@),
        decreases cap_me@.len() - i,
    {
        let mut j: usize = 0;
        while j < cap_target.len()
            invariant
                i < cap_me@.len(),
                j <= cap_target@.len(),
                f == same_data_object_type(cap_me@, cap_target@),
                m == cap_target@.len(),
                forall|i: int|
                    0 <= i < cap_me@.len() ==> (#[trigger] cap_me@[i]).data_object_capabilities.wf(),
                forall|j: int|
                    0 <= j < cap_target@.len() ==> (#[trigger] cap_target@[j]).data_object_capabilities.wf(),
                reduces_data_objects(
                    nego@,
                    index_pairs(i as int, m, f) + row_pairs(i as int, j as int, f),
                    cap_me@,
                    cap_target@,
                ),
            decreases cap_target@.len() - j,
        {
            let do_me = &cap_me[i];
            let do_target = &cap_target[j];
            let ghost pairs = index_pairs(i as int, m, f) + row_pairs(i as int, j as int, f);
            let ghost pairs2 = index_pairs(i as int, m, f) + row_pairs(i as int, j + 1, f);
            if do_me.qualified_type == do_target.qualified_type {
                let caps = negotiate_data_object_flags(
                    &do_me.data_object_capabilities,
                    &do_target.data_object_capabilities,
                );
                let ghost before = nego@;
                nego.push(
                    SupportedDataObject {
                        qualified_type: do_me.qualified_type.clone(),
                        data_object_capabilities: caps,
                    },
                );
                proof {
                    assert(pairs2 =~= pairs.push((i as int, j as int)));
                    assert forall|k: int| 0 <= k < nego@.len() implies {
                        let (a, b) = #[trigger] pairs2[k];
                        &&& nego@[k].qualified_type@ == cap_me@[a].qualified_type@
                        &&& nego@[k].data_object_capabilities.wf()
                        &&& forall|q: Seq<char>| #[trigger]
                            lookup(nego@[k].data_object_capabilities@, q) == agreed_flag(
                                cap_me@[a].data_object_capabilities@,
                                cap_target@[b].data_object_capabilities@,
                                q,
                            )
                    } by {
                        if k < before.len() {
                            assert(nego@[k] == before[k]);
                            assert(pairs2[k] == pairs[k]);
                        }
                    }
                }
            } else {
                proof {
                    assert(!f(i as int, j as int));
                    assert(pairs2 =~= pairs);
                }
            }
            j = j + 1;
        }
        proof {
            assert(index_pairs(i + 1, m, f) == index_pairs(i as int, m, f) + row_pairs(i as int, m, f));
        }
        i = i + 1;
    }
    nego
}


/// A protocol version: major, minor, revision, patch.
#[derive(Debug, PartialEq, Eq, Structural, Clone, Copy)]
pub struct Version {
    pub major: i32,
    pub minor: i32,
    pub revision: i32,
    pub patch: i32,
}

/// A protocol that an endpoint supports, in a role, with its capabilities.
pub struct SupportedProtocol {
    pub protocol: i32,
    pub protocol_version: Version,
    pub role: String,
    pub protocol_capabilities: CapabilityMap,
}

/// Whether two protocol descriptors agree on protocol, version and role.
pub open spec fn same_protocol(me: Seq<SupportedProtocol>, target: Seq<SupportedProtocol>) -> spec_fn(int, int) -> bool {
    |i: int, j: int|
        me[i].protocol == target[j].protocol && me[i].protocol_version == target[j].protocol_version
            && me[i].role@ == target[j].role@
}

/// Whether `r[k]` is the reduction of the pair `pairs[k]`, for every `k`.
pub open spec fn reduces_protocols(
    r: Seq<SupportedProtocol>,
    pairs: Seq<(int, int)>,
    me: Seq<SupportedProtocol>,
    target: Seq<SupportedProtocol>,
) -> bool {
    r.len() == pairs.len() && forall|k: int|
        0 <= k < r.len() ==> {
            let (i, j) = #[trigger] pairs[k];
            &&& r[k].protocol == me[i].protocol
            &&& r[k].protocol_version == me[i].protocol_version
            &&& r[k].role@ == me[i].role@
            &&& r[k].protocol_capabilities.wf()
            &&& forall|q: Seq<char>| #[trigger]
                lookup(r[k].protocol_capabilities@, q) == negotiated_endpoint(
                    me[i].protocol_capabilities@,
                    target[j].protocol_capabilities@,
                    q,
                )
        }
}

/// Pairs the protocols that both sides support in the same version and
/// role, in the order of `cap_me` then `cap_target`; each pair's
/// capabilities are negotiated by the endpoint rules.
pub fn negotiate_supported_protocol(
    cap_me: &Vec<SupportedProtocol>,
    cap_target: &Vec<SupportedProtocol>,
) -> (r: Vec<SupportedProtocol>)
    requires
        forall|i: int| 0 <= i < cap_me@.len() ==> (#[trigger] cap_me@[i]).protocol_capabilities.wf(),
        forall|j: int| 0 <= j < cap_target@.len() ==> (#[trigger] cap_target@[j]).protocol_capabilities.wf(),
    ensures
        reduces_protocols(
            r@,
            index_pairs(cap_me@.len() as int, cap_target@.len() as int, same_protocol(cap_me@, cap_target@)),
            cap_me@,
            cap_target@,
        ),
{
    let ghost f = same_protocol(cap_me@, cap_target@);
    let ghost m = cap_target@.len() as int;
    let mut nego: Vec<SupportedProtocol> = Vec::new();
    let mut i: usize = 0;
    while i < cap_me.len()
        invariant
            i <= cap_me@.len(),
            f == same_protocol(cap_me@, cap_target@),
            m == cap_target@.len(),
            forall|i: int| 0 <= i < cap_me@.len() ==> (#[trigger] cap_me@[i]).protocol_capabilities.wf(),
            forall|j: int|
                0 <= j < cap_target@.len() ==> (#[trigger] cap_target@[j]).protocol_capabilities.wf(),
            reduces_protocols(nego@, index_pairs(i as int, m, f), cap_me@, cap_target@),
        decreases cap_me@.len() - i,
    {
        let mut j: usize = 0;
        while j < cap_target.len()
            invariant
                i < cap_me@.len(),
                j <= cap_target@.len(),
                f == same_protocol(cap_me@, cap_target@),
                m == cap_target@.len(),
                forall|i: int|
                    0 <= i < cap_me@.len() ==> (#[trigger] cap_me@[i]).protocol_capabilities.wf(),
                forall|j: int|
                    0 <= j < cap_target@.len() ==> (#[trigger] cap_target@[j]).protocol_capabilities.wf(),
                reduces_protocols(
                    nego@,
                    index_pairs(i as int, m, f) + row_pairs(i as int, j as int, f),
                    cap_me@,
                    cap_target@,
                ),
            decreases cap_target@.len() - j,
        {
            let p_me = &cap_me[i];
            let p_target = &cap_target[j];
            let ghost pairs = index_pairs(i as int, m, f) + row_pairs(i as int, j as int, f);
            let ghost pairs2 = index_pairs(i as int, m, f) + row_pairs(i as int, j + 1, f);
            if p_me.protocol == p_target.protocol && p_me.protocol_version == p_target.protocol_version
                && p_me.role == p_target.role {
                let caps = negotiate_endpoint_capabilities(
                    &p_me.protocol_capabilities,
                    &p_target.protocol_capabilities,
                );
                let ghost before = nego@;
                nego.push(
                    SupportedProtocol {
                        protocol: p_me.protocol,
                        protocol_version: p_me.protocol_version,
                        role: p_me.role.clone(),
                        protocol_capabilities: caps,
                    },
                );
                proof {
                    assert(pairs2 =~= pairs.push((i as int, j as int)));
                    assert forall|k: int| 0 <= k < nego@.len() implies {
                        let (a, b) = #[trigger] pairs2[k];
                        &&& nego@[k].protocol == cap_me@[a].protocol
                        &&& nego@[k].protocol_version == cap_me@[a].protocol_version
                        &&& nego@[k].role@ == cap_me@[a].role@
                        &&& nego@[k].protocol_capabilities.wf()
                        &&& forall|q: Seq<char>| #[trigger]
                            lookup(nego@[k].protocol_capabilities@, q) == negotiated_endpoint(
                                cap_me@[a].protocol_capabilities@,
                                cap_target@[b].protocol_capabilities@,
                                q,
                            )
                    } by {
                        if k < before.len() {
                            assert(nego@[k] == before[k]);
                            assert(pairs2[k] == pairs[k]);
                        }
                    }
                }
            } else {
                proof {
                    assert(!f(i as int, j as int));
                    assert(pairs2 =~= pairs);
                }
            }
            j = j + 1;
        }
        proof {
            assert(index_pairs(i + 1, m, f) == index_pairs(i as int, m, f) + row_pairs(i as int, m, f));
        }
        i = i + 1;
    }
    nego
}

/// The texts of a list of strings.
pub open spec fn texts(v: Seq<String>) -> Seq<Seq<char>> {
    v.map_values(|s: String| s@)
}

/// Whether `text` is among `v`.
fn has_text(v: &Vec<String>, text: &String) -> (r: bool)
    ensures
        r == texts(v@).contains(text@),
{
    let mut i: usize = 0;
    while i < v.len()
        invariant
            i <= v@.len(),
            forall|j: int| 0 <= j < i ==> v@[j]@ != text@,
        decreases v@.len() - i,
    {
        if v[i] == *text {
            assert(texts(v@)[i as int] == text@);
            return true;
        }
        i = i + 1;
    }
    proof {
        if texts(v@).contains(text@) {
            let j = choose|j: int| 0 <= j < texts(v@).len() && texts(v@)[j] == text@;
            assert(v@[j]@ == text@);
        }
    }
    false
}

/// The strings found in both lists, once each, in the order of `a`.
pub fn intersect_texts(a: &Vec<String>, b: &Vec<String>) -> (r: Vec<String>)
    ensures
        texts(r@).no_duplicates(),
        forall|x: Seq<char>| #[trigger]
            texts(r@).contains(x) <==> texts(a@).contains(x) && texts(b@).contains(x),
{
    let mut r: Vec<String> = Vec::new();
    let mut i: usize = 0;
    while i < a.len()
        invariant
            i <= a@.len(),
            texts(r@).no_duplicates(),
            forall|x: Seq<char>| #[trigger]
                texts(r@).contains(x) <==> texts(a@.subrange(0, i as int)).contains(x)
                    && texts(b@).contains(x),
        decreases a@.len() - i,
    {
        let ghost before = r@;
        let ghost pre = a@.subrange(0, i as int);
        assert(texts(a@.subrange(0, i + 1)) =~= texts(pre).push(a@[i as int]@));
        let in_b = has_text(b, &a[i]);
        let in_r = has_text(&r, &a[i]);
        if in_b && !in_r {
            r.push(a[i].clone());
            assert(texts(r@) =~= texts(before).push(a@[i as int]@));
        }
        proof {
            let y = a@[i as int]@;
            assert forall|x: Seq<char>| #[trigger]
                texts(r@).contains(x) <==> texts(a@.subrange(0, i + 1)).contains(x)
                    && texts(b@).contains(x) by {
                assert(texts(pre).push(y).contains(x) <==> texts(pre).contains(x) || x == y) by {
                    if texts(pre).push(y).contains(x) && x != y {
                        let j = choose|j: int| 0 <= j < texts(pre).push(y).len() && texts(pre).push(y)[j] == x;
                        assert(texts(pre)[j] == x);
                    }
                    if texts(pre).contains(x) {
                        let j = choose|j: int| 0 <= j < texts(pre).len() && texts(pre)[j] == x;
                        assert(texts(pre).push(y)[j] == x);
                    }
                    assert(texts(pre).push(y)[texts(pre).len() as int] == y);
                }
                if in_b && !in_r {
                    assert(texts(before).push(y).contains(x) <==> texts(before).contains(x) || x == y) by {
                        if texts(before).push(y).contains(x) && x != y {
                            let j = choose|j: int| 0 <= j < texts(before).push(y).len() && texts(before).push(y)[j] == x;
                            assert(texts(before)[j] == x);
                        }
                        if texts(before).contains(x) {
                            let j = choose|j: int| 0 <= j < texts(before).len() && texts(before)[j] == x;
                            assert(texts(before).push(y)[j] == x);
                        }
                        assert(texts(before).push(y)[texts(before).len() as int] == y);
                    }
                }
            }
        }
        i = i + 1;
    }
    assert(a@.subrange(0, a@.len() as int) =~= a@);
    r
}

/// How to reach the people behind an application.
pub struct Contact {
    pub organization_name: String,
    pub contact_name: String,
    pub contact_phone: String,
    pub contact_email: String,
}

impl Contact {
    pub fn copy(&self) -> (r: Contact)
        ensures
            r == *self,
    {
        Contact {
            organization_name: self.organization_name.clone(),
            contact_name: self.contact_name.clone(),
            contact_phone: self.contact_phone.clone(),
            contact_email: self.contact_email.clone(),
        }
    }
}

/// What a server declares of itself when a session opens.
pub struct ServerCapabilities {
    pub application_name: String,
    pub application_version: String,
    pub contact_information: Contact,
    pub supported_compression: Vec<String>,
    pub supported_encodings: Vec<String>,
    pub supported_formats: Vec<String>,
    pub supported_data_objects: Vec<SupportedDataObject>,
    pub supported_protocols: Vec<SupportedProtocol>,
    pub endpoint_capabilities: CapabilityMap,
}

impl ServerCapabilities {
    /// Every capability map it holds has unique keys.
    pub open spec fn wf(&self) -> bool {
        &&& self.endpoint_capabilities.wf()
        &&& forall|i: int|
            0 <= i < self.supported_data_objects@.len()
                ==> (#[trigger] self.supported_data_objects@[i]).data_object_capabilities.wf()
        &&& forall|i: int|
            0 <= i < self.supported_protocols@.len()
                ==> (#[trigger] self.supported_protocols@[i]).protocol_capabilities.wf()
    }
}

/// Whether `r` holds exactly the strings found in both `a` and `b`, once each.
pub open spec fn is_intersection(r: Seq<String>, a: Seq<String>, b: Seq<String>) -> bool {
    &&& texts(r).no_duplicates()
    &&& forall|x: Seq<char>| #[trigger]
        texts(r).contains(x) <==> texts(a).contains(x) && texts(b).contains(x)
}

/// Reduces our capabilities against the peer's: the peer's application
/// name, version and contact are kept as they are; the compression,
/// encoding and format lists are intersected; data objects, protocols and
/// endpoint capabilities are negotiated.
pub fn negotiate_server_capabilities(cap_me: &ServerCapabilities, cap_target: &ServerCapabilities) -> (r:
    ServerCapabilities)
    requires
        cap_me.wf(),
        cap_target.wf(),
    ensures
        r.application_name@ == cap_target.application_name@,
        r.application_version@ == cap_target.application_version@,
        r.contact_information == cap_target.contact_information,
        is_intersection(
            r.supported_compression@,
            cap_me.supported_compression@,
            cap_target.supported_compression@,
        ),
        is_intersection(
            r.supported_encodings@,
            cap_me.supported_encodings@,
            cap_target.supported_encodings@,
        ),
        is_intersection(
            r.supported_formats@,
            cap_me.supported_formats@,
            cap_target.supported_formats@,
        ),
        reduces_data_objects(
            r.supported_data_objects@,
            index_pairs(
                cap_me.supported_data_objects@.len() as int,
                cap_target.supported_data_objects@.len() as int,
                same_data_object_type(cap_me.supported_data_objects@, cap_target.supported_data_objects@),
            ),
            cap_me.supported_data_objects@,
            cap_target.supported_data_objects@,
        ),
        reduces_protocols(
            r.supported_protocols@,
            index_pairs(
                cap_me.supported_protocols@.len() as int,
                cap_target.supported_protocols@.len() as int,
                same_protocol(cap_me.supported_protocols@, cap_target.supported_protocols@),
            ),
            cap_me.supported_protocols@,
            cap_target.supported_protocols@,
        ),
        r.endpoint_capabilities.wf(),
        forall|q: Seq<char>| #[trigger]
            lookup(r.endpoint_capabilities@, q) == negotiated_endpoint(
                cap_me.endpoint_capabilities@,
                cap_target.endpoint_capabilities@,
                q,
            ),
{
    ServerCapabilities {
        application_name: cap_target.application_name.clone(),
        application_version: cap_target.application_version.clone(),
        contact_information: cap_target.contact_information.copy(),
        supported_compression: intersect_texts(
            &cap_me.supported_compression,
            &cap_target.supported_compression,
        ),
        supported_encodings: intersect_texts(
            &cap_me.supported_encodings,
            &cap_target.supported_encodings,
        ),
        supported_formats: intersect_texts(&cap_me.supported_formats, &cap_target.supported_formats),
        supported_data_objects: negotiate_supported_data_object(
            &cap_me.supported_data_objects,
            &cap_target.supported_data_objects,
        ),
        supported_protocols: negotiate_supported_protocol(
            &cap_me.supported_protocols,
            &cap_target.supported_protocols,
        ),
        endpoint_capabilities: negotiate_endpoint_capabilities(
            &cap_me.endpoint_capabilities,
            &cap_target.endpoint_capabilities,
        ),
    }
}

} // verus!
