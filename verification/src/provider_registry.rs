//! Name-keyed set of layout providers with a capability gate.

use crate::provider;
use crate::provider::{LayoutError, LayoutProvider, ProviderId, ProviderName};
use crate::text;
use crate::tilers::{DwindleProvider, GridProvider, MasterProvider, NoopTiler};
use vstd::prelude::*;

verus! {

/// Why a registration is refused.
pub enum RegistrationFault {
    /// The capability was not granted.
    CapabilityDenied,
    /// The name is kept for a canonical provider.
    ReservedName,
    /// The name is taken.
    DuplicateName,
    /// The id is taken.
    DuplicateId,
}

/// The id that a reserved name belongs to.
pub open spec fn owner_of_reserved(name: Seq<char>) -> ProviderId {
    if name == "dwindle"@ {
        ProviderId(provider::DWINDLE_PROVIDER_ID)
    } else if name == "master"@ {
        ProviderId(provider::MASTER_PROVIDER_ID)
    } else if name == "grid"@ {
        ProviderId(provider::GRID_PROVIDER_ID)
    } else {
        ProviderId(u64::MAX)
    }
}

/// Why a provider may not join the registered ones: it needs the capability
/// unless it has the name and the id of the no-op tiler, a reserved name needs
/// its own id, and name and id have to be free.
pub open spec fn registration_fault(
    names: Seq<Seq<char>>,
    ids: Seq<ProviderId>,
    name: Seq<char>,
    id: ProviderId,
    granted: bool,
) -> Option<RegistrationFault> {
    if !(name == "noop"@ && id == ProviderId(provider::NOOP_PROVIDER_ID)) && !granted {
        Some(RegistrationFault::CapabilityDenied)
    } else if provider::is_reserved(name) && id != owner_of_reserved(name) {
        Some(RegistrationFault::ReservedName)
    } else if names.contains(name) {
        Some(RegistrationFault::DuplicateName)
    } else if ids.contains(id) {
        Some(RegistrationFault::DuplicateId)
    } else {
        None
    }
}

/// The error reports exactly this fault of a registration.
pub open spec fn reports_registration(
    e: LayoutError,
    fault: RegistrationFault,
    wanted: Seq<char>,
    id: ProviderId,
) -> bool {
    match fault {
        RegistrationFault::CapabilityDenied => e matches LayoutError::CapabilityDenied { name }
            && name@ == wanted,
        RegistrationFault::ReservedName => e matches LayoutError::ReservedName { name } && name@
            == wanted,
        RegistrationFault::DuplicateName => e matches LayoutError::DuplicateName { name } && name@
            == wanted,
        RegistrationFault::DuplicateId => e == (LayoutError::DuplicateId { id: id.0 }),
    }
}

/// The place of one registered provider.
pub struct Slot<P> {
    /// The provider.
    pub provider: P,
}

/// The names of a list of providers.
pub open spec fn labels_of(slots: Seq<Slot<Box<dyn LayoutProvider>>>) -> Seq<Seq<char>>
    decreases slots.len(),
{
    if slots.len() == 0 {
        Seq::empty()
    } else {
        labels_of(slots.drop_last()).push(slots.last().provider.label())
    }
}

/// The ids of a list of providers.
pub open spec fn keys_of(slots: Seq<Slot<Box<dyn LayoutProvider>>>) -> Seq<ProviderId>
    decreases slots.len(),
{
    if slots.len() == 0 {
        Seq::empty()
    } else {
        keys_of(slots.drop_last()).push(slots.last().provider.key())
    }
}

proof fn lemma_slots_index(slots: Seq<Slot<Box<dyn LayoutProvider>>>)
    ensures
        labels_of(slots).len() == slots.len(),
        keys_of(slots).len() == slots.len(),
        forall|i: int| 0 <= i < slots.len() ==> #[trigger] labels_of(slots)[i] == slots[i].provider.label(),
        forall|i: int| 0 <= i < slots.len() ==> #[trigger] keys_of(slots)[i] == slots[i].provider.key(),
    decreases slots.len(),
{
    if slots.len() > 0 {
        lemma_slots_index(slots.drop_last());
    }
}

/// Name-keyed provider set.
pub struct ProviderRegistry {
    providers: Vec<Slot<Box<dyn LayoutProvider>>>,
}

impl ProviderRegistry {
    /// The registered names in registration order.
    pub closed spec fn labels(self) -> Seq<Seq<char>> {
        labels_of(self.providers@)
    }

    /// The registered ids in registration order.
    pub closed spec fn keys(self) -> Seq<ProviderId> {
        keys_of(self.providers@)
    }

    /// No two providers share a name or an id.
    pub open spec fn wf(self) -> bool {
        &&& self.labels().len() == self.keys().len()
        &&& self.labels().no_duplicates()
        &&& self.keys().no_duplicates()
    }

    /// Creates an empty registry.
    #[must_use]
    pub fn new() -> (r: Self)
        ensures
            r.wf(),
            r.labels() == Seq::<Seq<char>>::empty(),
            r.keys() == Seq::<ProviderId>::empty(),
    {
        let r = Self { providers: Vec::new() };
        assert(r.labels() =~= Seq::<Seq<char>>::empty());
        assert(r.keys() =~= Seq::<ProviderId>::empty());
        r
    }

    /// Creates a registry that holds the canonical providers.
    #[must_use]
    pub fn with_canonical() -> (r: Self)
        ensures
            r.wf(),
            r.labels() == seq!["noop"@, "dwindle"@, "master"@, "grid"@],
            r.keys() == seq![ProviderId(0), ProviderId(1), ProviderId(2), ProviderId(3)],
    {
        let mut registry = Self::new();
        proof {
            reveal_strlit("noop");
            reveal_strlit("dwindle");
            reveal_strlit("master");
            reveal_strlit("grid");
            assert("noop"@[0] != "grid"@[0]);
            assert("noop"@.len() == 4 && "dwindle"@.len() == 7 && "master"@.len() == 6);
        }
        let _r0 = registry.register(Box::new(NoopTiler::new()), false);
        assert(registry.labels() =~= seq!["noop"@]);
        let _r1 = registry.register(Box::new(DwindleProvider::new()), true);
        assert(registry.labels() =~= seq!["noop"@, "dwindle"@]);
        let _r2 = registry.register(Box::new(MasterProvider::new()), true);
        assert(registry.labels() =~= seq!["noop"@, "dwindle"@, "master"@]);
        let _r3 = registry.register(Box::new(GridProvider::new()), true);
        assert(registry.labels() =~= seq!["noop"@, "dwindle"@, "master"@, "grid"@]);
        assert(registry.keys() =~= seq![
            ProviderId(0),
            ProviderId(1),
            ProviderId(2),
            ProviderId(3),
        ]);
        registry
    }

    /// Registers a provider.
    pub fn register(
        &mut self,
        provider: Box<dyn LayoutProvider>,
        has_layout_provider_capability: bool,
    ) -> (r: Result<(), LayoutError>)
        requires
            old(self).wf(),
        ensures
            final(self).wf(),
            match registration_fault(
                old(self).labels(),
                old(self).keys(),
                provider.label(),
                provider.key(),
                has_layout_provider_capability,
            ) {
                None => r is Ok && final(self).labels() == old(self).labels().push(
                    provider.label(),
                ) && final(self).keys() == old(self).keys().push(provider.key()),
                Some(fault) => (r matches Err(e) && reports_registration(
                    e,
                    fault,
                    provider.label(),
                    provider.key(),
                )) && final(self).labels() == old(self).labels() && final(self).keys() == old(self).keys(),
            },
    {
        let id = provider.id();
        let name = provider.name();
        let canonical: bool = name.is_canonical();
        let raw: String = name.as_str().to_owned();
        let is_noop: bool = text::same_text(raw.as_str(), provider::NOOP_PROVIDER_NAME) && id.0
            == provider::NOOP_PROVIDER_ID;
        if !is_noop && !has_layout_provider_capability {
            return Err(LayoutError::CapabilityDenied { name: raw });
        }
        if canonical && id != canonical_id(raw.as_str()) {
            return Err(LayoutError::ReservedName { name: raw });
        }
        if self.position(raw.as_str()).is_some() {
            return Err(LayoutError::DuplicateName { name: raw });
        }
        if self.has_id(id) {
            return Err(LayoutError::DuplicateId { id: id.0 });
        }
        let slot = Slot { provider };
        self.providers.push(slot);
        assert(self.providers@.last() == slot);
        assert(self.providers@.drop_last() =~= old(self).providers@);
        Ok(())
    }

    fn position(&self, name: &str) -> (found: Option<usize>)
        ensures
            match found {
                Some(i) => i < self.providers.len() && self.labels()[i as int] == name@
                    && self.labels().contains(name@),
                None => !self.labels().contains(name@),
            },
    {
        proof {
            lemma_slots_index(self.providers@);
        }
        let mut i: usize = 0;
        while i < self.providers.len()
            invariant
                0 <= i <= self.providers.len(),
                self.labels().len() == self.providers.len(),
                self.keys().len() == self.providers.len(),
                forall|k: int|
                    0 <= k < self.providers.len() ==> #[trigger] self.labels()[k]
                        == self.providers@[k].provider.label(),
                forall|k: int|
                    0 <= k < self.providers.len() ==> #[trigger] self.keys()[k]
                        == self.providers@[k].provider.key(),
                forall|j: int| 0 <= j < i ==> #[trigger] self.labels()[j] != name@,
            decreases self.providers.len() - i,
        {
            if text::same_text(self.providers[i].provider.name().as_str(), name) {
                assert(self.labels()[i as int] == name@);
                return Some(i);
            }
            i = i + 1;
        }
        None
    }

    fn has_id(&self, id: ProviderId) -> (yes: bool)
        ensures
            yes == self.keys().contains(id),
    {
        proof {
            lemma_slots_index(self.providers@);
        }
        let mut i: usize = 0;
        while i < self.providers.len()
            invariant
                0 <= i <= self.providers.len(),
                self.labels().len() == self.providers.len(),
                self.keys().len() == self.providers.len(),
                forall|k: int|
                    0 <= k < self.providers.len() ==> #[trigger] self.labels()[k]
                        == self.providers@[k].provider.label(),
                forall|k: int|
                    0 <= k < self.providers.len() ==> #[trigger] self.keys()[k]
                        == self.providers@[k].provider.key(),
                forall|j: int| 0 <= j < i ==> #[trigger] self.keys()[j] != id,
            decreases self.providers.len() - i,
        {
            if self.providers[i].provider.id() == id {
                assert(self.keys()[i as int] == id);
                return true;
            }
            i = i + 1;
        }
        false
    }

    /// Looks up a provider by name (spelling unchecked).
    #[must_use]
    pub fn resolve(&self, name: &str) -> (found: Option<&dyn LayoutProvider>)
        ensures
            match found {
                Some(p) => p.label() == name@ && exists|i: int|
                    0 <= i < self.labels().len() && #[trigger] self.labels()[i] == name@
                        && self.keys()[i] == p.key(),
                None => !self.labels().contains(name@),
            },
    {
        proof {
            lemma_slots_index(self.providers@);
        }
        match self.position(name) {
            Some(i) => {
                let found = Some(&*self.providers[i].provider);
                assert(self.labels()[i as int] == name@);
                found
            },
            None => None,
        }
    }

    /// Looks up a provider by name, checking the spelling.
    pub fn require(&self, name: &str) -> (r: Result<&dyn LayoutProvider, LayoutError>)
        ensures
            match r {
                Ok(p) => provider::name_fault(name@) is None && p.label() == name@ && exists|i: int|
                    0 <= i < self.labels().len() && #[trigger] self.labels()[i] == name@
                        && self.keys()[i] == p.key(),
                Err(LayoutError::InvalidName { name: bad, reason }) => bad@ == name@
                    && provider::name_fault(name@) == Some(reason@),
                Err(LayoutError::UnknownProvider { name: bad }) => bad@ == name@
                    && provider::name_fault(name@) is None && !self.labels().contains(name@),
                Err(_) => false,
            },
    {
        match ProviderName::parse(name) {
            Err(e) => Err(e),
            Ok(parsed) => match self.resolve(parsed.as_str()) {
                Some(p) => {
                    let found = Ok(p);
                    found
                },
                None => Err(LayoutError::UnknownProvider { name: parsed.as_str().to_owned() }),
            },
        }
    }

    /// Registered names in registration order.
    #[must_use]
    pub fn names(&self) -> (out: Vec<String>)
        ensures
            out@.map_values(|s: String| s@) == self.labels(),
    {
        let mut out: Vec<String> = Vec::new();
        proof {
            lemma_slots_index(self.providers@);
        }
        let mut i: usize = 0;
        while i < self.providers.len()
            invariant
                0 <= i <= self.providers.len(),
                self.labels().len() == self.providers.len(),
                self.keys().len() == self.providers.len(),
                forall|k: int|
                    0 <= k < self.providers.len() ==> #[trigger] self.labels()[k]
                        == self.providers@[k].provider.label(),
                forall|k: int|
                    0 <= k < self.providers.len() ==> #[trigger] self.keys()[k]
                        == self.providers@[k].provider.key(),
                out@.len() == i,
                forall|j: int| 0 <= j < i ==> (#[trigger] out@[j])@ == self.labels()[j],
            decreases self.providers.len() - i,
        {
            out.push(self.providers[i].provider.name().as_str().to_owned());
            i = i + 1;
        }
        assert(out@.map_values(|s: String| s@) =~= self.labels());
        out
    }

    /// Number of registered providers.
    #[must_use]
    pub fn len(&self) -> (n: usize)
        ensures
            n == self.labels().len(),
    {
        proof {
            lemma_slots_index(self.providers@);
        }
        self.providers.len()
    }

    /// Whether no provider is registered.
    #[must_use]
    pub fn is_empty(&self) -> (empty: bool)
        ensures
            empty == (self.labels().len() == 0),
    {
        self.len() == 0
    }
}

impl Default for ProviderRegistry {
    fn default() -> (r: Self)
        ensures
            r.wf(),
            r.labels().len() == 0,
    {
        Self::new()
    }
}

fn canonical_id(name: &str) -> (id: ProviderId)
    ensures
        id == owner_of_reserved(name@),
{
    if text::same_text(name, "dwindle") {
        ProviderId(provider::DWINDLE_PROVIDER_ID)
    } else if text::same_text(name, "master") {
        ProviderId(provider::MASTER_PROVIDER_ID)
    } else if text::same_text(name, "grid") {
        ProviderId(provider::GRID_PROVIDER_ID)
    } else {
        ProviderId(u64::MAX)
    }
}

/// A provider is registered when it is the built-in no-op one or the capability
/// is granted, when it owns its name if that is kept, and when neither its name
/// nor its id is in use; the first of these that fails is reported.
pub proof fn registrations_are_refused_in_order(
    names: Seq<Seq<char>>,
    ids: Seq<ProviderId>,
    name: Seq<char>,
    id: ProviderId,
    granted: bool,
)
    ensures
        ({
            let allowed = granted || (name == "noop"@ && id.0 == 0);
            let owned = (name == "dwindle"@ ==> id.0 == 1) && (name == "master"@ ==> id.0 == 2) && (
            name == "grid"@ ==> id.0 == 3);
            match registration_fault(names, ids, name, id, granted) {
                Some(RegistrationFault::CapabilityDenied) => !allowed,
                Some(RegistrationFault::ReservedName) => allowed && !owned,
                Some(RegistrationFault::DuplicateName) => allowed && owned && names.contains(name),
                Some(RegistrationFault::DuplicateId) => allowed && owned && !names.contains(name)
                    && ids.contains(id),
                None => allowed && owned && !names.contains(name) && !ids.contains(id),
            }
        }),
{
    reveal_strlit("dwindle");
    reveal_strlit("master");
    reveal_strlit("grid");
    assert("dwindle"@.len() == 7 && "master"@.len() == 6 && "grid"@.len() == 4);
}

} // verus!
