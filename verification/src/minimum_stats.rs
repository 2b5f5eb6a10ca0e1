use crate::actions::SimulatorCore;
use crate::simulation::{Action, Settings, SimulationState};
use vstd::prelude::*;

verus! {

/// The state after a macro: each action in its turn from the place `from` on;
/// an action that cannot be used is left out.
pub open spec fn spec_run_macro<
    F: Fn(&Settings, SimulationState, Action) -> Option<SimulationState>,
>(
    simulator: &SimulatorCore<F>,
    settings: Settings,
    state: SimulationState,
    actions: Seq<Action>,
    from: int,
) -> SimulationState
    decreases actions.len() - from,
{
    if from < 0 || from >= actions.len() {
        state
    } else {
        spec_run_macro(
            simulator,
            settings,
            match simulator.spec_use_action(settings, state, actions[from]) {
                Ok(next) => next,
                Err(_) => state,
            },
            actions,
            from + 1,
        )
    }
}

/// Runs a macro from `initial`.
pub fn run_macro<F: Fn(&Settings, SimulationState, Action) -> Option<SimulationState>>(
    simulator: &SimulatorCore<F>,
    settings: &Settings,
    initial: SimulationState,
    actions: &Vec<Action>,
) -> (r: SimulationState)
    requires
        simulator.wf(),
    ensures
        r == spec_run_macro(simulator, *settings, initial, actions@, 0),
{
    let mut state = initial;
    let mut i: usize = 0;
    while i < actions.len()
        invariant
            simulator.wf(),
            i <= actions.len(),
            spec_run_macro(simulator, *settings, initial, actions@, 0) == spec_run_macro(
                simulator,
                *settings,
                state,
                actions@,
                i as int,
            ),
        decreases actions.len() - i,
    {
        match simulator.use_action(settings, state, actions[i]) {
            Ok(next) => {
                state = next;
            },
            Err(_) => {},
        }
        i = i + 1;
    }
    state
}

/// Where a search for the least base progress and base quality stands: the
/// macro falls short at the lower ends, as far as was tried, and reaches the
/// targets at the upper ends.
#[derive(Clone, Copy, Debug, PartialEq, Eq, Structural)]
pub struct BaseSearch {
    pub min_progress: u16,
    pub max_progress: u16,
    pub min_quality: u16,
    pub max_quality: u16,
    /// Whether the macro reached the target quality in some trial.
    pub can_target_quality: bool,
}

/// What a macro is to reach.
#[derive(Clone, Copy, Debug, PartialEq, Eq, Structural)]
pub struct MacroTargets {
    pub progress: u32,
    pub quality: u32,
}

impl BaseSearch {
    /// An end is more than one apart from its other end.
    pub open spec fn is_open(self) -> bool {
        self.min_progress + 1 < self.max_progress || self.min_quality + 1 < self.max_quality
    }

    /// How far the ends are apart, both searches together.
    pub open spec fn width(self) -> int {
        (if self.max_progress > self.min_progress {
            self.max_progress - self.min_progress
        } else {
            0
        }) + (if self.max_quality > self.min_quality {
            self.max_quality - self.min_quality
        } else {
            0
        })
    }

    /// The settings of the next trial: both bases half way between their ends.
    pub open spec fn trial(self, settings: Settings) -> Settings {
        Settings {
            base_progress: ((self.min_progress + self.max_progress) / 2) as u16,
            base_quality: ((self.min_quality + self.max_quality) / 2) as u16,
            ..settings
        }
    }

    /// The search after a trial that ended in `state`: each base of the trial
    /// becomes the lower end if the macro fell short with it, else the upper end.
    pub open spec fn narrowed(
        self,
        settings: Settings,
        targets: MacroTargets,
        state: SimulationState,
    ) -> BaseSearch {
        let trial = self.trial(settings);
        BaseSearch {
            min_progress: if state.progress < targets.progress {
                trial.base_progress
            } else {
                self.min_progress
            },
            max_progress: if state.progress < targets.progress {
                self.max_progress
            } else {
                trial.base_progress
            },
            min_quality: if state.quality < targets.quality {
                trial.base_quality
            } else {
                self.min_quality
            },
            max_quality: if state.quality < targets.quality {
                self.max_quality
            } else {
                trial.base_quality
            },
            can_target_quality: self.can_target_quality || state.quality >= targets.quality,
        }
    }

    /// Where the search ends: trials go on while an end is open.
    pub open spec fn finished<F: Fn(&Settings, SimulationState, Action) -> Option<SimulationState>>(
        self,
        simulator: &SimulatorCore<F>,
        settings: Settings,
        initial: SimulationState,
        actions: Seq<Action>,
        targets: MacroTargets,
    ) -> BaseSearch
        decreases self.width(),
    {
        if self.is_open() {
            let state = spec_run_macro(simulator, self.trial(settings), initial, actions, 0);
            let next = self.narrowed(settings, targets, state);
            if next.width() < self.width() {
                next.finished(simulator, settings, initial, actions, targets)
            } else {
                self
            }
        } else {
            self
        }
    }

    /// Where the search starts, given the state that the macro ends in with
    /// the bases of `settings`: progress between 1 and the base progress;
    /// quality between 1 and the base quality if the macro reaches the target
    /// quality, else from the base quality up to half as much again. Where no
    /// quality is asked for, or the macro fixes the quality by its first
    /// action, the upper end of the quality is 1.
    pub open spec fn start(
        settings: Settings,
        targets: MacroTargets,
        reached: SimulationState,
        quality_is_fixed: bool,
    ) -> BaseSearch {
        let can_target_quality = reached.quality >= targets.quality;
        BaseSearch {
            min_progress: 1,
            max_progress: settings.base_progress,
            min_quality: if can_target_quality {
                1
            } else {
                settings.base_quality
            },
            max_quality: if targets.quality == 0 || quality_is_fixed {
                1
            } else if can_target_quality {
                settings.base_quality
            } else if settings.base_quality * 3 / 2 <= u16::MAX {
                (settings.base_quality * 3 / 2) as u16
            } else {
                u16::MAX
            },
            can_target_quality,
        }
    }
}

/// A trial brings the ends closer together while an end is open.
proof fn lemma_trial_narrows(
    search: BaseSearch,
    settings: Settings,
    targets: MacroTargets,
    state: SimulationState,
)
    requires
        search.is_open(),
    ensures
        search.narrowed(settings, targets, state).width() < search.width(),
{
}

/// The least base progress and base quality with which the macro `actions`
/// still reaches the targets, found by halving. `None` where the macro falls
/// short of the target progress even with the bases of `settings`.
pub fn find_minimum_bases<F: Fn(&Settings, SimulationState, Action) -> Option<SimulationState>>(
    simulator: &SimulatorCore<F>,
    settings: &Settings,
    initial: SimulationState,
    actions: &Vec<Action>,
    targets: MacroTargets,
    quality_is_fixed: bool,
) -> (r: Option<BaseSearch>)
    requires
        simulator.wf(),
    ensures
        r == ({
            let reached = spec_run_macro(simulator, *settings, initial, actions@, 0);
            if reached.progress < targets.progress {
                None
            } else {
                Some(
                    BaseSearch::start(*settings, targets, reached, quality_is_fixed).finished(
                        simulator,
                        *settings,
                        initial,
                        actions@,
                        targets,
                    ),
                )
            }
        }),
{
    let actual_result = run_macro(simulator, settings, initial, actions);
    if actual_result.progress < targets.progress {
        return None;
    }
    let can_target_quality = actual_result.quality >= targets.quality;
    let mut search = BaseSearch {
        min_progress: 1,
        max_progress: settings.base_progress,
        min_quality: if can_target_quality {
            1
        } else {
            settings.base_quality
        },
        max_quality: if targets.quality == 0 || quality_is_fixed {
            1
        } else if can_target_quality {
            settings.base_quality
        } else {
            let raised = settings.base_quality as u32 * 3 / 2;
            if raised <= u16::MAX as u32 {
                raised as u16
            } else {
                u16::MAX
            }
        },
        can_target_quality,
    };
    let ghost first = search;
    while search.min_progress as u32 + 1 < search.max_progress as u32 || search.min_quality as u32
        + 1 < search.max_quality as u32
        invariant
            simulator.wf(),
            first.finished(simulator, *settings, initial, actions@, targets) == search.finished(
                simulator,
                *settings,
                initial,
                actions@,
                targets,
            ),
        decreases search.width(),
    {
        let mut game_settings = *settings;
        game_settings.base_progress = ((search.min_progress as u32 + search.max_progress as u32)
            / 2) as u16;
        game_settings.base_quality = ((search.min_quality as u32 + search.max_quality as u32)
            / 2) as u16;
        let state = run_macro(simulator, &game_settings, initial, actions);
        proof {
            assert(game_settings == search.trial(*settings));
            lemma_trial_narrows(search, *settings, targets, state);
        }
        if state.progress < targets.progress {
            search.min_progress = game_settings.base_progress;
        } else {
            search.max_progress = game_settings.base_progress;
        }
        if state.quality < targets.quality {
            search.min_quality = game_settings.base_quality;
        } else {
            search.max_quality = game_settings.base_quality;
            search.can_target_quality = true;
        }
    }
    Some(search)
}

} // verus!
