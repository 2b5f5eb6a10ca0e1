use vstd::prelude::*;

verus! {

/// Where the quality that a craft starts with comes from.
#[derive(Debug, Clone, Copy, PartialEq)]
pub enum QualitySource {
    /// The number of high-quality pieces of each of the six ingredients.
    HqMaterialList([u8; 6]),
    /// The quality itself.
    Value(u16),
}

/// Settings of the application as a whole. Without a number of threads the
/// application picks one itself.
#[derive(Debug, Clone, Copy)]
pub struct AppConfig {
    pub zoom_percentage: u16,
    pub num_threads: Option<usize>,
}

impl Default for AppConfig {
    fn default() -> (r: Self)
        ensures
            r.zoom_percentage == 100,
            r.num_threads is None,
    {
        Self { zoom_percentage: 100, num_threads: None }
    }
}

/// The quality that the solver aims at.
#[derive(Debug, Clone, Copy, PartialEq, Eq, Structural)]
pub enum QualityTarget {
    Zero,
    CollectableT1,
    CollectableT2,
    CollectableT3,
    Full,
    Custom(u16),
}

impl QualityTarget {
    /// The share of the full quality that the target asks for, in percent.
    /// `None` for a custom target, which is a quality and no share.
    pub open spec fn percent(self) -> Option<int> {
        match self {
            Self::Zero => Some(0),
            Self::CollectableT1 => Some(55),
            Self::CollectableT2 => Some(75),
            Self::CollectableT3 => Some(95),
            Self::Full => Some(100),
            Self::Custom(_) => None,
        }
    }

    pub open spec fn spec_get_target(self, max_quality: u16) -> int {
        match self {
            Self::Custom(quality) => quality as int,
            _ => max_quality * self.percent().unwrap() / 100,
        }
    }

    /// The quality to aim at where `max_quality` is the full quality: the
    /// target's share of it, rounded down, or the custom quality.
    pub fn get_target(self, max_quality: u16) -> (r: u16)
        ensures
            r == self.spec_get_target(max_quality),
            !(self is Custom) ==> r <= max_quality,
    {
        match self {
            Self::Zero => 0,
            Self::CollectableT1 => (max_quality as u32 * 55 / 100) as u16,
            Self::CollectableT2 => (max_quality as u32 * 75 / 100) as u16,
            Self::CollectableT3 => (max_quality as u32 * 95 / 100) as u16,
            Self::Full => max_quality,
            Self::Custom(quality) => quality,
        }
    }

    pub open spec fn spec_label(self) -> Seq<char> {
        match self {
            Self::Zero => "0% quality"@,
            Self::CollectableT1 => "55% quality"@,
            Self::CollectableT2 => "75% quality"@,
            Self::CollectableT3 => "95% quality"@,
            Self::Full => "100% quality"@,
            Self::Custom(_) => "Custom"@,
        }
    }

    /// The name of the target as it is shown.
    pub fn label(&self) -> (r: String)
        ensures
            r@ == self.spec_label(),
    {
        match self {
            Self::Zero => "0% quality".to_string(),
            Self::CollectableT1 => "55% quality".to_string(),
            Self::CollectableT2 => "75% quality".to_string(),
            Self::CollectableT3 => "95% quality".to_string(),
            Self::Full => "100% quality".to_string(),
            Self::Custom(_) => "Custom".to_string(),
        }
    }

    /// The collectable tier that `quality` reaches where `max_quality` is the
    /// full quality: the highest of the three tiers whose target it meets, or 0.
    pub fn collectable_tier(quality: u32, max_quality: u16) -> (tier: u8)
        ensures
            tier <= 3,
            tier >= 3 <==> quality >= Self::CollectableT3.spec_get_target(max_quality),
            tier >= 2 <==> quality >= Self::CollectableT2.spec_get_target(max_quality),
            tier >= 1 <==> quality >= Self::CollectableT1.spec_get_target(max_quality),
    {
        let t1 = QualityTarget::CollectableT1.get_target(max_quality);
        let t2 = QualityTarget::CollectableT2.get_target(max_quality);
        let t3 = QualityTarget::CollectableT3.get_target(max_quality);
        if quality >= t3 as u32 {
            3
        } else if quality >= t2 as u32 {
            2
        } else if quality >= t1 as u32 {
            1
        } else {
            0
        }
    }
}

impl Default for QualityTarget {
    fn default() -> (r: Self)
        ensures
            r == QualityTarget::Full,
    {
        Self::Full
    }
}

/// What the solver is asked for.
#[derive(Debug, Clone, Copy, PartialEq, Eq, Structural)]
pub struct SolverConfig {
    pub quality_target: QualityTarget,
    pub backload_progress: bool,
    pub adversarial: bool,
}

impl Default for SolverConfig {
    fn default() -> (r: Self)
        ensures
            r == (SolverConfig {
                quality_target: QualityTarget::Full,
                backload_progress: false,
                adversarial: false,
            }),
    {
        Self { quality_target: QualityTarget::Full, backload_progress: false, adversarial: false }
    }
}

impl SolverConfig {
    /// The quality that is left for the solver to reach: the target less the
    /// quality that the craft starts with, and no less than nothing.
    pub fn remaining_quality(&self, max_quality: u16, initial_quality: u16) -> (r: u16)
        ensures
            r == if self.quality_target.spec_get_target(max_quality) > initial_quality {
                self.quality_target.spec_get_target(max_quality) - initial_quality
            } else {
                0
            },
    {
        let target_quality = self.quality_target.get_target(max_quality);
        if target_quality > initial_quality {
            target_quality - initial_quality
        } else {
            0
        }
    }
}

/// The least stats with which a macro still works, as far as they are known.
#[derive(Debug, Clone, Copy, PartialEq, Eq, Structural)]
pub struct MinimumStats {
    pub craftsmanship: Option<u16>,
    pub control: Option<u16>,
    pub cp: Option<u16>,
}

impl Default for MinimumStats {
    fn default() -> (r: Self)
        ensures
            r == (MinimumStats { craftsmanship: None, control: None, cp: None }),
    {
        Self { craftsmanship: None, control: None, cp: None }
    }
}

/// The stats of a crafter, for one job.
#[derive(Debug, Clone, Copy, PartialEq, Eq, Structural)]
pub struct CrafterStats {
    pub craftsmanship: u16,
    pub control: u16,
    pub cp: u16,
    pub level: u8,
    pub manipulation: bool,
    pub heart_and_soul: bool,
    pub quick_innovation: bool,
}

impl CrafterStats {
    /// Whether craftsmanship and control, each with its bonus, reach what a
    /// recipe requires.
    pub fn meets_requirements(
        &self,
        craftsmanship_bonus: u16,
        control_bonus: u16,
        craftsmanship_req: u16,
        control_req: u16,
    ) -> (r: bool)
        ensures
            r == (self.craftsmanship + craftsmanship_bonus >= craftsmanship_req && self.control
                + control_bonus >= control_req),
    {
        self.craftsmanship as u32 + craftsmanship_bonus as u32 >= craftsmanship_req as u32
            && self.control as u32 + control_bonus as u32 >= control_req as u32
    }
}

/// The stats of a crafter for each of the eight jobs, and the stats that are
/// being worked with: those of the selected job, or a copy that was changed.
#[derive(Debug, Clone, Copy, PartialEq, Eq)]
pub struct CrafterConfig {
    pub selected_job: u8,
    pub crafter_stats: [CrafterStats; 8],
    working_stats: CrafterStats,
    attached_job: Option<u8>,
}

impl CrafterConfig {
    /// The number of the selected job.
    pub closed spec fn selected(&self) -> u8 {
        self.selected_job
    }

    /// The stats of each job.
    pub closed spec fn job_stats(&self) -> Seq<CrafterStats> {
        self.crafter_stats@
    }

    /// The stats that are being worked with, apart from those of the jobs.
    pub closed spec fn working_stats(&self) -> CrafterStats {
        self.working_stats
    }

    /// The job that the working stats were copied from. `Some(255)`: they are to
    /// be copied from the selected job when asked for next. `None`: they are on
    /// their own.
    pub closed spec fn attached_job(&self) -> Option<u8> {
        self.attached_job
    }

    /// A config whose jobs all have the stats `stats`, with the second job
    /// selected and the working stats attached to it.
    pub fn new(stats: CrafterStats) -> (r: Self)
        ensures
            r.selected() == 1,
            r.job_stats().len() == 8,
            forall|job: int| 0 <= job < 8 ==> r.job_stats()[job] == stats,
            r.working_stats() == stats,
            r.attached_job() == Some(255u8),
    {
        Self {
            selected_job: 1,
            crafter_stats: [stats; 8],
            working_stats: stats,
            attached_job: CrafterConfig::intermediate_attached_job(),
        }
    }

    /// A config of the given parts.
    pub fn from_parts(
        selected_job: u8,
        crafter_stats: [CrafterStats; 8],
        working_stats: CrafterStats,
        attached_job: Option<u8>,
    ) -> (r: Self)
        ensures
            r.selected() == selected_job,
            r.job_stats() == crafter_stats@,
            r.working_stats() == working_stats,
            r.attached_job() == attached_job,
    {
        Self { selected_job, crafter_stats, working_stats, attached_job }
    }

    /// The working stats as they are, whatever job is selected.
    pub fn stored_working_stats(&self) -> (r: CrafterStats)
        ensures
            r == self.working_stats(),
    {
        self.working_stats
    }

    /// The job that the working stats are attached to, if any.
    pub fn stored_attached_job(&self) -> (r: Option<u8>)
        ensures
            r == self.attached_job(),
    {
        self.attached_job
    }

    /// The stats in use: those of the selected job while attached to a job, else
    /// the working stats.
    pub fn active_stats(&self) -> (r: &CrafterStats)
        requires
            self.selected() < 8,
        ensures
            *r == if self.attached_job() is Some {
                self.job_stats()[self.selected() as int]
            } else {
                self.working_stats()
            },
    {
        if self.attached_job.is_some() {
            &self.crafter_stats[self.selected_job as usize]
        } else {
            &self.working_stats
        }
    }

    /// The working stats, to be changed. While attached to a job they are made
    /// those of the selected job first, unless they were copied from it already.
    pub fn active_stats_mut(&mut self) -> (r: &mut CrafterStats)
        requires
            old(self).selected() < 8,
        ensures
            *r == match old(self).attached_job() {
                Some(job) if job != old(self).selected() => old(self).job_stats()[old(
                    self,
                ).selected() as int],
                _ => old(self).working_stats(),
            },
            final(self).working_stats() == *final(r),
            final(self).selected() == old(self).selected(),
            final(self).job_stats() == old(self).job_stats(),
            final(self).attached_job() == match old(self).attached_job() {
                Some(_) => Some(old(self).selected()),
                None => None,
            },
    {
        if let Some(job) = self.attached_job {
            if job != self.selected_job {
                self.attached_job = Some(self.selected_job);
                self.working_stats = self.crafter_stats[self.selected_job as usize];
            }
        }
        &mut self.working_stats
    }

    fn intermediate_attached_job() -> (r: Option<u8>)
        ensures
            r == Some(255u8),
    {
        Some(255)
    }

    /// Attaches the working stats to the selected job again.
    pub fn reset_to_job(&mut self)
        ensures
            final(self).attached_job() == Some(255u8),
            final(self).selected() == old(self).selected(),
            final(self).job_stats() == old(self).job_stats(),
            final(self).working_stats() == old(self).working_stats(),
    {
        self.attached_job = CrafterConfig::intermediate_attached_job();
    }

    /// Lets the working stats stand on their own.
    pub fn detach_from_job(&mut self)
        ensures
            final(self).attached_job() is None,
            final(self).selected() == old(self).selected(),
            final(self).job_stats() == old(self).job_stats(),
            final(self).working_stats() == old(self).working_stats(),
    {
        self.attached_job = None;
    }

    /// Whether the working stats stand on their own.
    pub fn is_detached(&self) -> (r: bool)
        ensures
            r == (self.attached_job() is None),
    {
        self.attached_job.is_none()
    }
}

} // verus!
