//! The firmwares that are tried by default, in order of priority.

use vstd::prelude::*;

verus! {

/// A firmware that the default registry can hold.
#[derive(Clone, Copy, Debug, PartialEq, Eq, Hash, Structural)]
pub enum FirmwareKind {
    Braiins,
    LuxMiner,
    Marathon,
    Vnish,
    EPic,
    VolcMiner,
    Elphapex,
    FutureBit,
    WhatsMiner,
    AntMiner,
    SealMiner,
    AvalonMiner,
    Auradine,
    NerdAxe,
    Proto,
    Bitaxe,
}

/// Which firmwares a build supports.
#[derive(Clone, Copy, Debug, PartialEq, Eq, Structural)]
pub struct FirmwareFeatures {
    pub braiins: bool,
    pub luxminer: bool,
    pub marathon: bool,
    pub vnish: bool,
    pub volcminer: bool,
    pub elphapex: bool,
    pub epic: bool,
    pub futurebit: bool,
    pub whatsminer: bool,
    pub antminer: bool,
    pub sealminer: bool,
    pub avalonminer: bool,
    pub auradine: bool,
    pub nerdaxe: bool,
    pub proto: bool,
    pub bitaxe: bool,
}

/// All firmwares, those that are asked first first. Replacement firmwares come
/// before the stock ones, and NerdAxe comes before Bitaxe, whose web page it
/// shares but which is less specific.
pub open spec fn priority_order() -> Seq<FirmwareKind> {
    seq![
        FirmwareKind::Braiins,
        FirmwareKind::LuxMiner,
        FirmwareKind::Marathon,
        FirmwareKind::Vnish,
        FirmwareKind::EPic,
        FirmwareKind::VolcMiner,
        FirmwareKind::Elphapex,
        FirmwareKind::FutureBit,
        FirmwareKind::WhatsMiner,
        FirmwareKind::AntMiner,
        FirmwareKind::SealMiner,
        FirmwareKind::AvalonMiner,
        FirmwareKind::Auradine,
        FirmwareKind::NerdAxe,
        FirmwareKind::Proto,
        FirmwareKind::Bitaxe,
    ]
}

impl FirmwareFeatures {
    /// A build that supports every firmware.
    pub fn all() -> (features: FirmwareFeatures)
        ensures
            forall|kind: FirmwareKind| features.supports(kind),
    {
        FirmwareFeatures {
            braiins: true,
            luxminer: true,
            marathon: true,
            vnish: true,
            volcminer: true,
            elphapex: true,
            epic: true,
            futurebit: true,
            whatsminer: true,
            antminer: true,
            sealminer: true,
            avalonminer: true,
            auradine: true,
            nerdaxe: true,
            proto: true,
            bitaxe: true,
        }
    }

    /// Whether the build supports `kind`.
    pub open spec fn supports(self, kind: FirmwareKind) -> bool {
        match kind {
            FirmwareKind::Braiins => self.braiins,
            FirmwareKind::LuxMiner => self.luxminer,
            FirmwareKind::Marathon => self.marathon,
            FirmwareKind::Vnish => self.vnish,
            FirmwareKind::VolcMiner => self.volcminer,
            FirmwareKind::Elphapex => self.elphapex,
            FirmwareKind::EPic => self.epic,
            FirmwareKind::FutureBit => self.futurebit,
            FirmwareKind::WhatsMiner => self.whatsminer,
            FirmwareKind::AntMiner => self.antminer,
            FirmwareKind::SealMiner => self.sealminer,
            FirmwareKind::AvalonMiner => self.avalonminer,
            FirmwareKind::Auradine => self.auradine,
            FirmwareKind::NerdAxe => self.nerdaxe,
            FirmwareKind::Proto => self.proto,
            FirmwareKind::Bitaxe => self.bitaxe,
        }
    }

    /// Whether the build supports `kind`.
    pub fn is_supported(&self, kind: FirmwareKind) -> (supported: bool)
        ensures
            supported == self.supports(kind),
    {
        match kind {
            FirmwareKind::Braiins => self.braiins,
            FirmwareKind::LuxMiner => self.luxminer,
            FirmwareKind::Marathon => self.marathon,
            FirmwareKind::Vnish => self.vnish,
            FirmwareKind::VolcMiner => self.volcminer,
            FirmwareKind::Elphapex => self.elphapex,
            FirmwareKind::EPic => self.epic,
            FirmwareKind::FutureBit => self.futurebit,
            FirmwareKind::WhatsMiner => self.whatsminer,
            FirmwareKind::AntMiner => self.antminer,
            FirmwareKind::SealMiner => self.sealminer,
            FirmwareKind::AvalonMiner => self.avalonminer,
            FirmwareKind::Auradine => self.auradine,
            FirmwareKind::NerdAxe => self.nerdaxe,
            FirmwareKind::Proto => self.proto,
            FirmwareKind::Bitaxe => self.bitaxe,
        }
    }

    /// The supported firmwares in order of priority.
    pub open spec fn registry(self) -> Seq<FirmwareKind> {
        priority_order().filter(|kind: FirmwareKind| self.supports(kind))
    }
}

/// All firmwares in order of priority.
fn kinds() -> (kinds: [FirmwareKind; 16])
    ensures
        kinds@ == priority_order(),
{
    let kinds = [
        FirmwareKind::Braiins,
        FirmwareKind::LuxMiner,
        FirmwareKind::Marathon,
        FirmwareKind::Vnish,
        FirmwareKind::EPic,
        FirmwareKind::VolcMiner,
        FirmwareKind::Elphapex,
        FirmwareKind::FutureBit,
        FirmwareKind::WhatsMiner,
        FirmwareKind::AntMiner,
        FirmwareKind::SealMiner,
        FirmwareKind::AvalonMiner,
        FirmwareKind::Auradine,
        FirmwareKind::NerdAxe,
        FirmwareKind::Proto,
        FirmwareKind::Bitaxe,
    ];
    assert(kinds@ =~= priority_order());
    kinds
}

/// The supported firmwares, those that are asked first first.
pub fn default_firmware_registry(features: &FirmwareFeatures) -> (registry: Vec<FirmwareKind>)
    ensures
        registry@ == features.registry(),
        registry@.no_duplicates(),
        registry@.contains(FirmwareKind::Braiins) <==> features.braiins,
        registry@.contains(FirmwareKind::LuxMiner) <==> features.luxminer,
        registry@.contains(FirmwareKind::Marathon) <==> features.marathon,
        registry@.contains(FirmwareKind::Vnish) <==> features.vnish,
        registry@.contains(FirmwareKind::EPic) <==> features.epic,
        registry@.contains(FirmwareKind::VolcMiner) <==> features.volcminer,
        registry@.contains(FirmwareKind::Elphapex) <==> features.elphapex,
        registry@.contains(FirmwareKind::FutureBit) <==> features.futurebit,
        registry@.contains(FirmwareKind::WhatsMiner) <==> features.whatsminer,
        registry@.contains(FirmwareKind::AntMiner) <==> features.antminer,
        registry@.contains(FirmwareKind::SealMiner) <==> features.sealminer,
        registry@.contains(FirmwareKind::AvalonMiner) <==> features.avalonminer,
        registry@.contains(FirmwareKind::Auradine) <==> features.auradine,
        registry@.contains(FirmwareKind::NerdAxe) <==> features.nerdaxe,
        registry@.contains(FirmwareKind::Proto) <==> features.proto,
        registry@.contains(FirmwareKind::Bitaxe) <==> features.bitaxe,
{
    let kinds = kinds();
    let ghost wanted = |kind: FirmwareKind| features.supports(kind);
    let mut registry: Vec<FirmwareKind> = Vec::new();
    let mut i: usize = 0;
    proof {
        reveal(Seq::filter);
        assert(kinds@.take(0).filter(wanted) =~= Seq::empty());
    }
    while i < 16
        invariant
            i <= 16,
            kinds@ == priority_order(),
            wanted == (|kind: FirmwareKind| features.supports(kind)),
            registry@ == kinds@.take(i as int).filter(wanted),
        decreases 16 - i,
    {
        let kind = kinds[i];
        if features.is_supported(kind) {
            registry.push(kind);
        }
        proof {
            reveal(Seq::filter);
            assert(kinds@.take(i + 1).drop_last() =~= kinds@.take(i as int));
        }
        i = i + 1;
    }
    assert(kinds@.take(16) =~= kinds@);
    proof {
        law_registry_follows_priority(*features);
    }
    registry
}

/// The place of `kind` in the order of priority.
pub open spec fn rank(kind: FirmwareKind) -> nat {
    match kind {
        FirmwareKind::Braiins => 0,
        FirmwareKind::LuxMiner => 1,
        FirmwareKind::Marathon => 2,
        FirmwareKind::Vnish => 3,
        FirmwareKind::EPic => 4,
        FirmwareKind::VolcMiner => 5,
        FirmwareKind::Elphapex => 6,
        FirmwareKind::FutureBit => 7,
        FirmwareKind::WhatsMiner => 8,
        FirmwareKind::AntMiner => 9,
        FirmwareKind::SealMiner => 10,
        FirmwareKind::AvalonMiner => 11,
        FirmwareKind::Auradine => 12,
        FirmwareKind::NerdAxe => 13,
        FirmwareKind::Proto => 14,
        FirmwareKind::Bitaxe => 15,
    }
}

/// Whether `kind` is the firmware that its hardware is sold with.
pub open spec fn is_stock(kind: FirmwareKind) -> bool {
    match kind {
        FirmwareKind::Braiins => false,
        FirmwareKind::LuxMiner => false,
        FirmwareKind::Marathon => false,
        FirmwareKind::Vnish => false,
        FirmwareKind::EPic => false,
        FirmwareKind::VolcMiner => true,
        FirmwareKind::Elphapex => true,
        FirmwareKind::FutureBit => true,
        FirmwareKind::WhatsMiner => true,
        FirmwareKind::AntMiner => true,
        FirmwareKind::SealMiner => true,
        FirmwareKind::AvalonMiner => true,
        FirmwareKind::Auradine => true,
        FirmwareKind::NerdAxe => true,
        FirmwareKind::Proto => true,
        FirmwareKind::Bitaxe => true,
    }
}

/// The first `n` places of the order, filtered, are in ascending order and hold
/// what they should.
proof fn lemma_registry_prefix(features: FirmwareFeatures, n: int)
    requires
        0 <= n <= 16,
    ensures
        ({
            let part = priority_order().take(n).filter(
                |kind: FirmwareKind| features.supports(kind),
            );
            &&& forall|i: int| 0 <= i < part.len() ==> rank(#[trigger] part[i]) < n
            &&& forall|i: int, j: int|
                0 <= i < j < part.len() ==> rank(#[trigger] part[i]) < rank(#[trigger] part[j])
            &&& forall|kind: FirmwareKind| #[trigger]
                part.contains(kind) <==> rank(kind) < n && features.supports(kind)
        }),
    decreases n,
{
    reveal(Seq::filter);
    let order = priority_order();
    let wanted = |kind: FirmwareKind| features.supports(kind);
    let part = order.take(n).filter(wanted);
    if n == 0 {
        assert(part =~= Seq::empty());
    } else {
        lemma_registry_prefix(features, n - 1);
        let front = order.take(n - 1).filter(wanted);
        assert(order.take(n).drop_last() =~= order.take(n - 1));
        let kind = order[n - 1];
        assert(rank(kind) == n - 1);
        assert forall|k: FirmwareKind| rank(k) == n - 1 implies k == kind by {}
        if wanted(kind) {
            assert(part == front.push(kind));
            assert forall|k: FirmwareKind| #[trigger]
                part.contains(k) <==> front.contains(k) || k == kind by {
                if front.contains(k) {
                    let i = choose|i: int| 0 <= i < front.len() && front[i] == k;
                    assert(part[i] == k);
                }
                if k == kind {
                    assert(part[part.len() - 1] == k);
                }
                if part.contains(k) {
                    let i = choose|i: int| 0 <= i < part.len() && part[i] == k;
                    if i < front.len() {
                        assert(front[i] == k);
                    }
                }
            }
        }
    }
}

/// The default registry holds exactly the supported firmwares, each once, in order
/// of priority.
pub proof fn law_registry_follows_priority(features: FirmwareFeatures)
    ensures
        forall|kind: FirmwareKind| #[trigger]
            features.registry().contains(kind) <==> features.supports(kind),
        forall|i: int, j: int|
            0 <= i < j < features.registry().len() ==> rank(#[trigger] features.registry()[i])
                < rank(#[trigger] features.registry()[j]),
        features.registry().no_duplicates(),
{
    lemma_registry_prefix(features, 16);
    assert(priority_order().take(16) =~= priority_order());
}

/// Replacement firmwares come first: behind a stock firmware the default registry holds
/// stock firmwares alone.
pub proof fn law_stock_firmwares_come_last(features: FirmwareFeatures, i: int, j: int)
    requires
        0 <= i < j < features.registry().len(),
        is_stock(features.registry()[i]),
    ensures
        is_stock(features.registry()[j]),
{
    law_registry_follows_priority(features);
}

/// Where both are supported, NerdAxe stands before Bitaxe.
pub proof fn law_nerdaxe_before_bitaxe(features: FirmwareFeatures, i: int, j: int)
    requires
        0 <= i < features.registry().len(),
        0 <= j < features.registry().len(),
        features.registry()[i] == FirmwareKind::NerdAxe,
        features.registry()[j] == FirmwareKind::Bitaxe,
    ensures
        i < j,
{
    law_registry_follows_priority(features);
}

/// The firmwares in the default registry are those that are switched on, each by its own
/// switch.
pub proof fn law_each_firmware_has_its_switch(features: FirmwareFeatures)
    ensures
        features.registry().contains(FirmwareKind::Braiins) <==> features.braiins,
        features.registry().contains(FirmwareKind::LuxMiner) <==> features.luxminer,
        features.registry().contains(FirmwareKind::Marathon) <==> features.marathon,
        features.registry().contains(FirmwareKind::Vnish) <==> features.vnish,
        features.registry().contains(FirmwareKind::EPic) <==> features.epic,
        features.registry().contains(FirmwareKind::VolcMiner) <==> features.volcminer,
        features.registry().contains(FirmwareKind::Elphapex) <==> features.elphapex,
        features.registry().contains(FirmwareKind::FutureBit) <==> features.futurebit,
        features.registry().contains(FirmwareKind::WhatsMiner) <==> features.whatsminer,
        features.registry().contains(FirmwareKind::AntMiner) <==> features.antminer,
        features.registry().contains(FirmwareKind::SealMiner) <==> features.sealminer,
        features.registry().contains(FirmwareKind::AvalonMiner) <==> features.avalonminer,
        features.registry().contains(FirmwareKind::Auradine) <==> features.auradine,
        features.registry().contains(FirmwareKind::NerdAxe) <==> features.nerdaxe,
        features.registry().contains(FirmwareKind::Proto) <==> features.proto,
        features.registry().contains(FirmwareKind::Bitaxe) <==> features.bitaxe,
{
    law_registry_follows_priority(features);
}

/// Switching other firmwares on or off does not change which of two firmwares is asked
/// first.
pub proof fn law_order_does_not_depend_on_switches(
    some: FirmwareFeatures,
    other: FirmwareFeatures,
    i: int,
    j: int,
    k: int,
    l: int,
)
    requires
        0 <= i < j < some.registry().len(),
        0 <= k < other.registry().len(),
        0 <= l < other.registry().len(),
        some.registry()[i] == other.registry()[k],
        some.registry()[j] == other.registry()[l],
    ensures
        k < l,
{
    law_registry_follows_priority(some);
    law_registry_follows_priority(other);
}

/// The replacement firmwares are those that are made to run on the hardware of others.
pub proof fn law_replacement_firmwares(kind: FirmwareKind)
    ensures
        is_stock(kind) <==> kind != FirmwareKind::Braiins && kind != FirmwareKind::LuxMiner && kind
            != FirmwareKind::Marathon && kind != FirmwareKind::Vnish && kind != FirmwareKind::EPic,
{
}

} // verus!
