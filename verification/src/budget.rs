//! Resource budgets: caps on nodes, texture memory, blur area and draw calls,
//! and the rule which overuse is refused and which is cut to the cap.

use crate::text;
use crate::uitree;
use crate::uitree::UiNode;
use vstd::prelude::*;

verus! {

/// Texture cap of the essential tier (8 MiB).
pub const ESSENTIAL_TEXTURE_BYTES: u64 = 8 * 1024 * 1024;

/// Texture cap of the standard tier (32 MiB).
pub const STANDARD_TEXTURE_BYTES: u64 = 32 * 1024 * 1024;

/// Texture cap of the rich tier (64 MiB).
pub const RICH_TEXTURE_BYTES: u64 = 64 * 1024 * 1024;

/// Demand in the four dimensions.
#[derive(Debug, Clone, Copy, PartialEq, Eq, Structural, Hash, Default)]
pub struct ResourceUsage {
    /// Nodes.
    pub nodes: usize,
    /// Texture memory in bytes.
    pub texture_bytes: u64,
    /// Blur area in pixels.
    pub blur_area_px: u64,
    /// Draw calls.
    pub draw_calls: usize,
}

/// The sum of two counts, or the largest one.
pub open spec fn sum_usize(a: usize, b: usize) -> usize {
    if a + b <= usize::MAX {
        (a + b) as usize
    } else {
        usize::MAX
    }
}

/// The sum of two amounts, or the largest one.
pub open spec fn sum_u64(a: u64, b: u64) -> u64 {
    if a + b <= u64::MAX {
        (a + b) as u64
    } else {
        u64::MAX
    }
}

/// The demand of two surfaces together.
pub open spec fn sum_usage(a: ResourceUsage, b: ResourceUsage) -> ResourceUsage {
    ResourceUsage {
        nodes: sum_usize(a.nodes, b.nodes),
        texture_bytes: sum_u64(a.texture_bytes, b.texture_bytes),
        blur_area_px: sum_u64(a.blur_area_px, b.blur_area_px),
        draw_calls: sum_usize(a.draw_calls, b.draw_calls),
    }
}

impl ResourceUsage {
    /// Creates a demand.
    #[must_use]
    pub fn new(nodes: usize, texture_bytes: u64, blur_area_px: u64, draw_calls: usize) -> (usage:
        Self)
        ensures
            usage == (ResourceUsage { nodes, texture_bytes, blur_area_px, draw_calls }),
    {
        Self { nodes, texture_bytes, blur_area_px, draw_calls }
    }

    /// No demand.
    #[must_use]
    pub fn zero() -> (usage: Self)
        ensures
            usage == (ResourceUsage {
                nodes: 0,
                texture_bytes: 0,
                blur_area_px: 0,
                draw_calls: 0,
            }),
    {
        Self::new(0, 0, 0, 0)
    }

    /// The demand of canvas commands: one draw call each.
    #[must_use]
    pub fn draws(commands: usize) -> (usage: Self)
        ensures
            usage == (ResourceUsage {
                nodes: 0,
                texture_bytes: 0,
                blur_area_px: 0,
                draw_calls: commands,
            }),
    {
        Self::new(0, 0, 0, commands)
    }

    /// The demand of both together; each dimension stops at its largest number.
    #[must_use]
    pub fn saturating_add(self, other: Self) -> (usage: Self)
        ensures
            usage == sum_usage(self, other),
    {
        Self {
            nodes: self.nodes.saturating_add(other.nodes),
            texture_bytes: self.texture_bytes.saturating_add(other.texture_bytes),
            blur_area_px: self.blur_area_px.saturating_add(other.blur_area_px),
            draw_calls: self.draw_calls.saturating_add(other.draw_calls),
        }
    }
}

/// Counts the nodes of a tree, the root among them.
#[must_use]
pub fn tree_nodes(root: &UiNode) -> (n: usize)
    ensures
        n == uitree::capped(root.size()),
{
    root.count_nodes()
}

/// A budgeted dimension.
#[derive(Debug, Clone, Copy, PartialEq, Eq, Structural, Hash)]
pub enum BudgetDimension {
    /// Nodes.
    Nodes,
    /// Texture memory in bytes.
    TextureBytes,
    /// Blur area in pixels.
    BlurAreaPx,
    /// Draw calls.
    DrawCalls,
}

impl BudgetDimension {
    /// The name of the dimension.
    pub open spec fn spelled(self) -> Seq<char> {
        match self {
            BudgetDimension::Nodes => "nodes"@,
            BudgetDimension::TextureBytes => "texture-bytes"@,
            BudgetDimension::BlurAreaPx => "blur-area-px"@,
            BudgetDimension::DrawCalls => "draw-calls"@,
        }
    }

    /// The name of the dimension.
    #[must_use]
    pub fn as_str(self) -> (name: &'static str)
        ensures
            name@ == self.spelled(),
    {
        match self {
            Self::Nodes => "nodes",
            Self::TextureBytes => "texture-bytes",
            Self::BlurAreaPx => "blur-area-px",
            Self::DrawCalls => "draw-calls",
        }
    }
}

/// One exceeded cap.
#[derive(Debug, Clone, Copy, PartialEq, Eq, Structural, Hash)]
pub struct Overrun {
    /// The dimension.
    pub dimension: BudgetDimension,
    /// The demand.
    pub found: u64,
    /// The cap.
    pub cap: u64,
}

impl Overrun {
    /// The message of the overrun.
    pub open spec fn spelled(self) -> Seq<char> {
        "budget overrun on "@ + self.dimension.spelled() + ": "@ + text::decimal(self.found as nat)
            + " exceeds cap "@ + text::decimal(self.cap as nat)
    }

    /// Spells the overrun.
    #[must_use]
    pub fn text(&self) -> (out: String)
        ensures
            out@ == self.spelled(),
    {
        let mut out = text::joined3("budget overrun on ", self.dimension.as_str(), ": ");
        text::push_decimal(&mut out, self.found);
        text::push_text(&mut out, " exceeds cap ");
        text::push_decimal(&mut out, self.cap);
        out
    }
}

/// What becomes of a demand.
#[derive(Debug, PartialEq, Eq)]
pub enum Admission {
    /// It is within every cap.
    Accepted,
    /// Blur or draw calls are cut to their caps.
    Degraded(ResourceUsage),
    /// Nodes or texture memory exceed their caps; every such overrun is listed.
    Refused(Vec<Overrun>),
}

/// What becomes of a demand, with the overruns as a sequence.
pub enum Verdict {
    /// It is within every cap.
    Accepted,
    /// Blur or draw calls are cut to their caps.
    Degraded(ResourceUsage),
    /// Nodes or texture memory exceed their caps.
    Refused(Seq<Overrun>),
}

impl View for Admission {
    type V = Verdict;

    open spec fn view(&self) -> Verdict {
        match *self {
            Admission::Accepted => Verdict::Accepted,
            Admission::Degraded(usage) => Verdict::Degraded(usage),
            Admission::Refused(overruns) => Verdict::Refused(overruns@),
        }
    }
}

impl Admission {
    /// Whether something may be shown.
    #[must_use]
    pub fn is_admitted(&self) -> (admitted: bool)
        ensures
            admitted == !(self@ is Refused),
    {
        match self {
            Self::Accepted => true,
            Self::Degraded(_) => true,
            Self::Refused(_) => false,
        }
    }
}

impl Clone for Admission {
    fn clone(&self) -> (copy: Self)
        ensures
            copy@ == self@,
    {
        match self {
            Self::Accepted => Self::Accepted,
            Self::Degraded(usage) => Self::Degraded(*usage),
            Self::Refused(overruns) => {
                let copied = overruns.clone();
                assert(copied@ =~= overruns@);
                Self::Refused(copied)
            },
        }
    }
}

/// Caps in the four dimensions.
#[derive(Debug, Clone, Copy, PartialEq, Eq, Structural, Hash)]
pub struct ResourceBudget {
    /// Most nodes.
    pub max_nodes: usize,
    /// Most texture memory in bytes.
    pub max_texture_bytes: u64,
    /// Largest blur area in pixels.
    pub max_blur_area_px: u64,
    /// Most draw calls.
    pub max_draw_calls: usize,
}

/// The overrun of one dimension, if any.
pub open spec fn overrun(budget: ResourceBudget, usage: ResourceUsage, d: BudgetDimension) -> Option<
    Overrun,
> {
    let (found, cap): (u64, u64) = match d {
        BudgetDimension::Nodes => (usage.nodes as u64, budget.max_nodes as u64),
        BudgetDimension::TextureBytes => (usage.texture_bytes, budget.max_texture_bytes),
        BudgetDimension::BlurAreaPx => (usage.blur_area_px, budget.max_blur_area_px),
        BudgetDimension::DrawCalls => (usage.draw_calls as u64, budget.max_draw_calls as u64),
    };
    if found > cap {
        Some(Overrun { dimension: d, found, cap })
    } else {
        None
    }
}

/// The first overrun in the order nodes, texture, blur, draw calls.
pub open spec fn first_overrun(budget: ResourceBudget, usage: ResourceUsage) -> Option<Overrun> {
    if overrun(budget, usage, BudgetDimension::Nodes) is Some {
        overrun(budget, usage, BudgetDimension::Nodes)
    } else if overrun(budget, usage, BudgetDimension::TextureBytes) is Some {
        overrun(budget, usage, BudgetDimension::TextureBytes)
    } else if overrun(budget, usage, BudgetDimension::BlurAreaPx) is Some {
        overrun(budget, usage, BudgetDimension::BlurAreaPx)
    } else {
        overrun(budget, usage, BudgetDimension::DrawCalls)
    }
}

/// The overrun of one dimension as a sequence.
pub open spec fn listed(o: Option<Overrun>) -> Seq<Overrun> {
    match o {
        Some(o) => seq![o],
        None => Seq::empty(),
    }
}

/// The overruns of nodes and texture.
pub open spec fn structural(budget: ResourceBudget, usage: ResourceUsage) -> Seq<Overrun> {
    listed(overrun(budget, usage, BudgetDimension::Nodes)) + listed(
        overrun(budget, usage, BudgetDimension::TextureBytes),
    )
}

/// The demand with blur and draw calls cut to their caps.
pub open spec fn cut(budget: ResourceBudget, usage: ResourceUsage) -> ResourceUsage {
    ResourceUsage {
        blur_area_px: if usage.blur_area_px > budget.max_blur_area_px {
            budget.max_blur_area_px
        } else {
            usage.blur_area_px
        },
        draw_calls: if usage.draw_calls > budget.max_draw_calls {
            budget.max_draw_calls
        } else {
            usage.draw_calls
        },
        ..usage
    }
}

/// What a budget makes of a demand.
pub open spec fn verdict(budget: ResourceBudget, usage: ResourceUsage) -> Verdict {
    if structural(budget, usage).len() > 0 {
        Verdict::Refused(structural(budget, usage))
    } else if cut(budget, usage) == usage {
        Verdict::Accepted
    } else {
        Verdict::Degraded(cut(budget, usage))
    }
}

impl ResourceBudget {
    /// Creates a budget.
    #[must_use]
    pub fn new(
        max_nodes: usize,
        max_texture_bytes: u64,
        max_blur_area_px: u64,
        max_draw_calls: usize,
    ) -> (budget: Self)
        ensures
            budget == (ResourceBudget {
                max_nodes,
                max_texture_bytes,
                max_blur_area_px,
                max_draw_calls,
            }),
    {
        Self { max_nodes, max_texture_bytes, max_blur_area_px, max_draw_calls }
    }

    /// Accepts only a demand within every cap; reports the first overrun.
    pub fn check(&self, usage: ResourceUsage) -> (r: Result<(), Overrun>)
        ensures
            r == match first_overrun(*self, usage) {
                Some(o) => Err::<(), Overrun>(o),
                None => Ok(()),
            },
    {
        if usage.nodes > self.max_nodes {
            return Err(
                Overrun {
                    dimension: BudgetDimension::Nodes,
                    found: usage.nodes as u64,
                    cap: self.max_nodes as u64,
                },
            );
        }
        if usage.texture_bytes > self.max_texture_bytes {
            return Err(
                Overrun {
                    dimension: BudgetDimension::TextureBytes,
                    found: usage.texture_bytes,
                    cap: self.max_texture_bytes,
                },
            );
        }
        if usage.blur_area_px > self.max_blur_area_px {
            return Err(
                Overrun {
                    dimension: BudgetDimension::BlurAreaPx,
                    found: usage.blur_area_px,
                    cap: self.max_blur_area_px,
                },
            );
        }
        if usage.draw_calls > self.max_draw_calls {
            return Err(
                Overrun {
                    dimension: BudgetDimension::DrawCalls,
                    found: usage.draw_calls as u64,
                    cap: self.max_draw_calls as u64,
                },
            );
        }
        Ok(())
    }

    /// Refuses a demand for too many nodes or too much texture, and cuts blur
    /// and draw calls to their caps.
    #[must_use]
    pub fn admission(&self, usage: ResourceUsage) -> (admission: Admission)
        ensures
            admission@ == verdict(*self, usage),
    {
        let mut overruns: Vec<Overrun> = Vec::new();
        if usage.nodes > self.max_nodes {
            overruns.push(
                Overrun {
                    dimension: BudgetDimension::Nodes,
                    found: usage.nodes as u64,
                    cap: self.max_nodes as u64,
                },
            );
        }
        if usage.texture_bytes > self.max_texture_bytes {
            overruns.push(
                Overrun {
                    dimension: BudgetDimension::TextureBytes,
                    found: usage.texture_bytes,
                    cap: self.max_texture_bytes,
                },
            );
        }
        assert(overruns@ =~= structural(*self, usage));
        if overruns.len() > 0 {
            return Admission::Refused(overruns);
        }
        let degraded = ResourceUsage {
            nodes: usage.nodes,
            texture_bytes: usage.texture_bytes,
            blur_area_px: if usage.blur_area_px > self.max_blur_area_px {
                self.max_blur_area_px
            } else {
                usage.blur_area_px
            },
            draw_calls: if usage.draw_calls > self.max_draw_calls {
                self.max_draw_calls
            } else {
                usage.draw_calls
            },
        };
        if degraded == usage {
            Admission::Accepted
        } else {
            Admission::Degraded(degraded)
        }
    }
}

/// Preset budgets.
#[derive(Debug, Clone, Copy, PartialEq, Eq, Structural, Hash, PartialOrd, Ord)]
pub enum BudgetTier {
    /// Small surfaces.
    Essential,
    /// Everyday chrome.
    Standard,
    /// Heavy effects.
    Rich,
}

/// The tier of a name.
pub open spec fn tier_named(name: Seq<char>) -> Option<BudgetTier> {
    if name == "essential"@ {
        Some(BudgetTier::Essential)
    } else if name == "standard"@ {
        Some(BudgetTier::Standard)
    } else if name == "rich"@ {
        Some(BudgetTier::Rich)
    } else {
        None
    }
}

/// The caps of a tier.
pub open spec fn caps_of(tier: BudgetTier) -> ResourceBudget {
    match tier {
        BudgetTier::Essential => ResourceBudget {
            max_nodes: 256,
            max_texture_bytes: ESSENTIAL_TEXTURE_BYTES,
            max_blur_area_px: 0,
            max_draw_calls: 128,
        },
        BudgetTier::Standard => ResourceBudget {
            max_nodes: 1024,
            max_texture_bytes: STANDARD_TEXTURE_BYTES,
            max_blur_area_px: 262_144,
            max_draw_calls: 512,
        },
        BudgetTier::Rich => ResourceBudget {
            max_nodes: 2048,
            max_texture_bytes: RICH_TEXTURE_BYTES,
            max_blur_area_px: 1_048_576,
            max_draw_calls: 1024,
        },
    }
}

impl BudgetTier {
    /// The name of the tier.
    pub open spec fn spelled(self) -> Seq<char> {
        match self {
            BudgetTier::Essential => "essential"@,
            BudgetTier::Standard => "standard"@,
            BudgetTier::Rich => "rich"@,
        }
    }

    /// The name of the tier.
    #[must_use]
    pub fn as_str(self) -> (name: &'static str)
        ensures
            name@ == self.spelled(),
    {
        match self {
            Self::Essential => "essential",
            Self::Standard => "standard",
            Self::Rich => "rich",
        }
    }

    /// The tier of a name, exactly as spelled.
    #[must_use]
    pub fn parse(s: &str) -> (tier: Option<Self>)
        ensures
            tier == tier_named(s@),
    {
        if text::same_text(s, "essential") {
            Some(Self::Essential)
        } else if text::same_text(s, "standard") {
            Some(Self::Standard)
        } else if text::same_text(s, "rich") {
            Some(Self::Rich)
        } else {
            None
        }
    }

    /// The caps of the tier.
    #[must_use]
    pub fn caps(self) -> (budget: ResourceBudget)
        ensures
            budget == caps_of(self),
    {
        match self {
            Self::Essential => ResourceBudget::new(256, ESSENTIAL_TEXTURE_BYTES, 0, 128),
            Self::Standard => ResourceBudget::new(1024, STANDARD_TEXTURE_BYTES, 512 * 512, 512),
            Self::Rich => ResourceBudget::new(2048, RICH_TEXTURE_BYTES, 1024 * 1024, 1024),
        }
    }
}

impl Default for BudgetTier {
    fn default() -> (tier: Self)
        ensures
            tier == BudgetTier::Standard,
    {
        Self::Standard
    }
}

/// The name of a tier is read back as the tier.
pub proof fn tier_names_round_trip(tier: BudgetTier)
    ensures
        tier_named(tier.spelled()) == Some(tier),
{
    reveal_strlit("essential");
    reveal_strlit("standard");
    reveal_strlit("rich");
    assert("essential"@.len() == 9 && "standard"@.len() == 8 && "rich"@.len() == 4);
}

/// A demand is accepted exactly when the strict check passes it, and refused
/// exactly when nodes or texture exceed their caps.
pub proof fn admission_follows_the_check(budget: ResourceBudget, usage: ResourceUsage)
    ensures
        verdict(budget, usage) is Accepted <==> first_overrun(budget, usage) is None,
        verdict(budget, usage) is Refused <==> usage.nodes > budget.max_nodes
            || usage.texture_bytes > budget.max_texture_bytes,
{
}

/// What a budget lets through is within every cap, and asks for no more than
/// the demand.
pub proof fn admitted_demand_fits(budget: ResourceBudget, usage: ResourceUsage)
    requires
        !(verdict(budget, usage) is Refused),
    ensures
        first_overrun(budget, cut(budget, usage)) is None,
        cut(budget, usage).nodes == usage.nodes,
        cut(budget, usage).texture_bytes == usage.texture_bytes,
        cut(budget, usage).blur_area_px <= usage.blur_area_px,
        cut(budget, usage).draw_calls <= usage.draw_calls,
        verdict(budget, cut(budget, usage)) is Accepted,
{
}

/// A demand that fits a tier fits the next one.
pub proof fn tiers_nest(usage: ResourceUsage)
    ensures
        first_overrun(caps_of(BudgetTier::Essential), usage) is None ==> first_overrun(
            caps_of(BudgetTier::Standard),
            usage,
        ) is None,
        first_overrun(caps_of(BudgetTier::Standard), usage) is None ==> first_overrun(
            caps_of(BudgetTier::Rich),
            usage,
        ) is None,
{
}

/// Demand sums in any order and grouping, and adding nothing changes nothing.
pub proof fn demand_sums_freely(a: ResourceUsage, b: ResourceUsage, c: ResourceUsage)
    ensures
        sum_usage(a, b) == sum_usage(b, a),
        sum_usage(sum_usage(a, b), c) == sum_usage(a, sum_usage(b, c)),
        sum_usage(
            a,
            ResourceUsage { nodes: 0, texture_bytes: 0, blur_area_px: 0, draw_calls: 0 },
        ) == a,
{
}

/// The caps of the three tiers.
pub proof fn tiers_cap_each_measure(tier: BudgetTier)
    ensures
        ({
            let b = caps_of(tier);
            let mib = 1024 * 1024;
            &&& tier is Essential ==> b.max_nodes == 256 && b.max_texture_bytes == 8 * mib
                && b.max_blur_area_px == 0 && b.max_draw_calls == 128
            &&& tier is Standard ==> b.max_nodes == 1024 && b.max_texture_bytes == 32 * mib
                && b.max_blur_area_px == 512 * 512 && b.max_draw_calls == 512
            &&& tier is Rich ==> b.max_nodes == 2048 && b.max_texture_bytes == 64 * mib
                && b.max_blur_area_px == 1024 * 1024 && b.max_draw_calls == 1024
        }),
{
}

/// The check reports the first measure that is over its cap, in the order nodes,
/// texture bytes, blurred area, draw calls, with what was found and the cap.
pub proof fn checks_report_the_first_overrun(budget: ResourceBudget, usage: ResourceUsage)
    ensures
        ({
            let n = usage.nodes > budget.max_nodes;
            let t = usage.texture_bytes > budget.max_texture_bytes;
            let b = usage.blur_area_px > budget.max_blur_area_px;
            let d = usage.draw_calls > budget.max_draw_calls;
            match first_overrun(budget, usage) {
                None => !n && !t && !b && !d,
                Some(o) => match o.dimension {
                    BudgetDimension::Nodes => n && o.found == usage.nodes && o.cap
                        == budget.max_nodes,
                    BudgetDimension::TextureBytes => !n && t && o.found == usage.texture_bytes
                        && o.cap == budget.max_texture_bytes,
                    BudgetDimension::BlurAreaPx => !n && !t && b && o.found == usage.blur_area_px
                        && o.cap == budget.max_blur_area_px,
                    BudgetDimension::DrawCalls => !n && !t && !b && d && o.found
                        == usage.draw_calls && o.cap == budget.max_draw_calls,
                },
            }
        }),
{
}

/// Too many nodes or too much texture refuse a demand, and the refusal lists the
/// one, the other or both, in that order. Too much blur or too many draw calls cut
/// it down to the caps, and a demand within all caps is accepted as it is.
pub proof fn demands_are_refused_cut_or_accepted(budget: ResourceBudget, usage: ResourceUsage)
    ensures
        ({
            let n = usage.nodes > budget.max_nodes;
            let t = usage.texture_bytes > budget.max_texture_bytes;
            let b = usage.blur_area_px > budget.max_blur_area_px;
            let d = usage.draw_calls > budget.max_draw_calls;
            match verdict(budget, usage) {
                Verdict::Refused(all) => {
                    &&& n || t
                    &&& all.len() == (if n && t {
                        2int
                    } else {
                        1
                    })
                    &&& n ==> all[0].dimension is Nodes && all[0].found == usage.nodes
                        && all[0].cap == budget.max_nodes
                    &&& t ==> all.last().dimension is TextureBytes && all.last().found
                        == usage.texture_bytes && all.last().cap == budget.max_texture_bytes
                },
                Verdict::Degraded(u) => {
                    &&& !n && !t && (b || d)
                    &&& u.nodes == usage.nodes && u.texture_bytes == usage.texture_bytes
                    &&& u.blur_area_px == (if b {
                        budget.max_blur_area_px
                    } else {
                        usage.blur_area_px
                    })
                    &&& u.draw_calls == (if d {
                        budget.max_draw_calls
                    } else {
                        usage.draw_calls
                    })
                },
                Verdict::Accepted => !n && !t && !b && !d,
            }
        }),
{
}

/// Demands add up measure by measure, up to what the measure can hold.
pub proof fn demands_add_measure_by_measure(a: ResourceUsage, b: ResourceUsage)
    ensures
        ({
            let s = sum_usage(a, b);
            &&& a.nodes + b.nodes <= usize::MAX ==> s.nodes == a.nodes + b.nodes
            &&& a.nodes + b.nodes > usize::MAX ==> s.nodes == usize::MAX
            &&& a.texture_bytes + b.texture_bytes <= u64::MAX ==> s.texture_bytes
                == a.texture_bytes + b.texture_bytes
            &&& a.texture_bytes + b.texture_bytes > u64::MAX ==> s.texture_bytes == u64::MAX
            &&& a.blur_area_px + b.blur_area_px <= u64::MAX ==> s.blur_area_px == a.blur_area_px
                + b.blur_area_px
            &&& a.blur_area_px + b.blur_area_px > u64::MAX ==> s.blur_area_px == u64::MAX
            &&& a.draw_calls + b.draw_calls <= usize::MAX ==> s.draw_calls == a.draw_calls
                + b.draw_calls
            &&& a.draw_calls + b.draw_calls > usize::MAX ==> s.draw_calls == usize::MAX
        }),
{
}

} // verus!
