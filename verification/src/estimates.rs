use crate::actions::SimulatorCore;
use crate::effects::{effects_of, lemma_effects_of, EffectsView};
use crate::simulation::{Action, Settings, SimulationState};
use vstd::prelude::*;

verus! {

/// The progress that `action` adds to `from`; nothing where it cannot be used.
pub open spec fn progress_increase<
    F: Fn(&Settings, SimulationState, Action) -> Option<SimulationState>,
>(simulator: &SimulatorCore<F>, settings: Settings, from: SimulationState, action: Action) -> int {
    match simulator.spec_use_action(settings, from, action) {
        Ok(next) => if next.progress > from.progress {
            next.progress - from.progress
        } else {
            0
        },
        Err(_) => 0,
    }
}

/// The most progress that one of `actions` adds to `from`, and 0 where none
/// adds any.
pub fn largest_progress_increase<
    F: Fn(&Settings, SimulationState, Action) -> Option<SimulationState>,
>(
    simulator: &SimulatorCore<F>,
    settings: &Settings,
    from: SimulationState,
    actions: &Vec<Action>,
) -> (r: u32)
    requires
        simulator.wf(),
    ensures
        forall|i: int|
            0 <= i < actions.len() ==> progress_increase(
                simulator,
                *settings,
                from,
                #[trigger] actions[i],
            ) <= r,
        r == 0 || exists|i: int|
            0 <= i < actions.len() && progress_increase(
                simulator,
                *settings,
                from,
                #[trigger] actions[i],
            ) == r,
{
    let mut largest: u32 = 0;
    let mut i: usize = 0;
    while i < actions.len()
        invariant
            simulator.wf(),
            i <= actions.len(),
            forall|j: int|
                0 <= j < i ==> progress_increase(simulator, *settings, from, #[trigger] actions[j])
                    <= largest,
            largest == 0 || exists|j: int|
                0 <= j < i && progress_increase(simulator, *settings, from, #[trigger] actions[j])
                    == largest,
        decreases actions.len() - i,
    {
        match simulator.use_action(settings, from, actions[i]) {
            Ok(next) => {
                if next.progress > from.progress && next.progress - from.progress > largest {
                    largest = next.progress - from.progress;
                    proof {
                        assert(progress_increase(simulator, *settings, from, actions[i as int])
                            == largest);
                    }
                }
            },
            Err(_) => {},
        }
        proof {
            if largest != 0 {
                let j = choose|j: int|
                    0 <= j < i + 1 && progress_increase(
                        simulator,
                        *settings,
                        from,
                        #[trigger] actions[j],
                    ) == largest;
            }
        }
        i = i + 1;
    }
    largest
}

/// `state` with `stacks` Inner Quiet stacks.
pub open spec fn with_stacks(state: SimulationState, stacks: int) -> SimulationState {
    SimulationState {
        effects: effects_of(EffectsView { inner_quiet: stacks as nat, ..state.effects@ }),
        ..state
    }
}

/// The sum of two qualities, or the largest `u32` where the sum is larger.
pub open spec fn capped_sum(a: u32, b: u32) -> u32 {
    if a + b <= u32::MAX {
        (a + b) as u32
    } else {
        u32::MAX
    }
}

/// The table before anything is known: no quality for no stack, and no way to
/// any other number of stacks.
pub open spec fn unknown_table() -> Seq<u32> {
    Seq::new(11, |i: int| if i == 0 { 0u32 } else { u32::MAX })
}

/// The table after an action was seen to lead from `stacks` stacks to the
/// state `next`: if `next` has more stacks, their entry is lowered to the
/// entry of `stacks` and the quality of `next` together, where that is less.
pub open spec fn lowered(table: Seq<u32>, stacks: int, next: SimulationState) -> Seq<u32> {
    let reached = next.effects@.inner_quiet as int;
    let quality = capped_sum(table[stacks], next.quality);
    if stacks < reached <= 10 && quality < table[reached] {
        table.update(reached, quality)
    } else {
        table
    }
}

/// The table after the first `count` of `actions` were tried from `stacks`
/// stacks, and all of them from every smaller number of stacks. A number of
/// stacks to which no way is known yet is passed over.
pub open spec fn table_after<F: Fn(&Settings, SimulationState, Action) -> Option<SimulationState>>(
    simulator: &SimulatorCore<F>,
    settings: Settings,
    initial: SimulationState,
    actions: Seq<Action>,
    stacks: int,
    count: int,
) -> Seq<u32>
    decreases stacks, count,
{
    if stacks < 0 {
        unknown_table()
    } else if count <= 0 {
        if stacks == 0 {
            unknown_table()
        } else {
            table_after(
                simulator,
                settings,
                initial,
                actions,
                stacks - 1,
                actions.len() as int,
            )
        }
    } else {
        let before = table_after(simulator, settings, initial, actions, stacks, count - 1);
        if stacks > 10 || before[stacks] == u32::MAX {
            before
        } else {
            match simulator.spec_use_action(settings, with_stacks(initial, stacks), actions[count - 1]) {
                Ok(next) => lowered(before, stacks, next),
                Err(_) => before,
            }
        }
    }
}

/// The least quality with which `stacks` Inner Quiet stacks were seen to be
/// reached from none, by actions of `actions` used from `initial`; 0 where no
/// way was seen, and 0 throughout in the adversarial mode.
pub open spec fn spec_iq_quality<
    F: Fn(&Settings, SimulationState, Action) -> Option<SimulationState>,
>(
    simulator: &SimulatorCore<F>,
    settings: Settings,
    initial: SimulationState,
    actions: Seq<Action>,
    stacks: int,
) -> u32 {
    let found = table_after(simulator, settings, initial, actions, 9, actions.len() as int)[stacks];
    if settings.adversarial || found == u32::MAX {
        0
    } else {
        found
    }
}

/// For each number of Inner Quiet stacks, the least quality with which a craft
/// was seen to come to that many stacks. The actions are tried from `initial`
/// with 0 to 9 stacks, in the order of rising stacks.
pub fn iq_quality_lut<F: Fn(&Settings, SimulationState, Action) -> Option<SimulationState>>(
    simulator: &SimulatorCore<F>,
    settings: &Settings,
    initial: SimulationState,
    actions: &Vec<Action>,
) -> (lut: [u32; 11])
    requires
        simulator.wf(),
    ensures
        lut[0] == 0,
        forall|stacks: int|
            0 <= stacks <= 10 ==> #[trigger] lut[stacks] == spec_iq_quality(
                simulator,
                *settings,
                initial,
                actions@,
                stacks,
            ),
{
    let mut lut: [u32; 11] = [u32::MAX; 11];
    lut[0] = 0;
    if settings.adversarial {
        let mut i: usize = 1;
        while i < 11
            invariant
                1 <= i <= 11,
                forall|j: int| 0 <= j < i ==> lut[j] == 0,
            decreases 11 - i,
        {
            lut[i] = 0;
            i = i + 1;
        }
        return lut;
    }
    proof {
        assert(lut@ =~= unknown_table());
    }
    let mut stacks: u8 = 0;
    while stacks < 10
        invariant
            simulator.wf(),
            stacks <= 10,
            lut[0] == 0,
            lut@ == table_after(simulator, *settings, initial, actions@, stacks as int, 0),
        decreases 10 - stacks,
    {
        let mut state = initial;
        state.effects = initial.effects.with_inner_quiet(stacks);
        proof {
            lemma_effects_of(state.effects);
            assert(state == with_stacks(initial, stacks as int));
        }
        let mut k: usize = 0;
        while k < actions.len()
            invariant
                simulator.wf(),
                stacks < 10,
                k <= actions.len(),
                state == with_stacks(initial, stacks as int),
                lut[0] == 0,
                lut@.len() == 11,
                lut@ == table_after(
                    simulator,
                    *settings,
                    initial,
                    actions@,
                    stacks as int,
                    k as int,
                ),
            decreases actions.len() - k,
        {
            let known = lut[stacks as usize];
            if known != u32::MAX {
                match simulator.use_action(settings, state, actions[k]) {
                    Ok(next) => {
                        let reached = next.effects.inner_quiet();
                        let quality = if next.quality <= u32::MAX - known {
                            known + next.quality
                        } else {
                            u32::MAX
                        };
                        if reached > stacks && quality < lut[reached as usize] {
                            lut[reached as usize] = quality;
                        }
                    },
                    Err(_) => {},
                }
            }
            k = k + 1;
        }
        stacks = stacks + 1;
    }
    let ghost found = lut@;
    let mut i: usize = 0;
    while i < 11
        invariant
            i <= 11,
            found.len() == 11,
            found[0] == 0,
            lut[0] == 0,
            forall|j: int|
                0 <= j < i ==> lut[j] == if found[j] == u32::MAX {
                    0
                } else {
                    found[j]
                },
            forall|j: int| i <= j < 11 ==> lut[j] == found[j],
        decreases 11 - i,
    {
        if lut[i] == u32::MAX {
            lut[i] = 0;
        }
        i = i + 1;
    }
    lut
}

} // verus!
