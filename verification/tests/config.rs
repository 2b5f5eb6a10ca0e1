use step_lb_solver::config::{
    AppConfig, CrafterConfig, CrafterStats, MinimumStats, QualitySource, QualityTarget, SolverConfig,
};

#[test]
fn get_target_takes_the_share_of_the_full_quality() {
    assert_eq!(QualityTarget::Zero.get_target(1000), 0);
    assert_eq!(QualityTarget::CollectableT1.get_target(1000), 550);
    assert_eq!(QualityTarget::CollectableT2.get_target(1000), 750);
    assert_eq!(QualityTarget::CollectableT3.get_target(1000), 950);
    assert_eq!(QualityTarget::Full.get_target(1000), 1000);
    assert_eq!(QualityTarget::Custom(1234).get_target(1000), 1234);
}

#[test]
fn get_target_rounds_down() {
    assert_eq!(QualityTarget::CollectableT1.get_target(7), 3);
    assert_eq!(QualityTarget::CollectableT2.get_target(7), 5);
    assert_eq!(QualityTarget::CollectableT3.get_target(7), 6);
    assert_eq!(QualityTarget::CollectableT3.get_target(1), 0);
    assert_eq!(QualityTarget::CollectableT1.get_target(0), 0);
}

#[test]
fn get_target_of_the_largest_quality() {
    assert_eq!(QualityTarget::CollectableT1.get_target(u16::MAX), 36044);
    assert_eq!(QualityTarget::CollectableT2.get_target(u16::MAX), 49151);
    assert_eq!(QualityTarget::CollectableT3.get_target(u16::MAX), 62258);
    assert_eq!(QualityTarget::Full.get_target(u16::MAX), u16::MAX);
    assert_eq!(QualityTarget::Custom(u16::MAX).get_target(3), u16::MAX);
}

#[test]
fn labels_of_the_targets() {
    assert_eq!(QualityTarget::Zero.label(), "0% quality");
    assert_eq!(QualityTarget::CollectableT1.label(), "55% quality");
    assert_eq!(QualityTarget::CollectableT2.label(), "75% quality");
    assert_eq!(QualityTarget::CollectableT3.label(), "95% quality");
    assert_eq!(QualityTarget::Full.label(), "100% quality");
    assert_eq!(QualityTarget::Custom(7).label(), "Custom");
}

#[test]
fn collectable_tier_is_the_highest_target_met() {
    assert_eq!(QualityTarget::collectable_tier(0, 1000), 0);
    assert_eq!(QualityTarget::collectable_tier(549, 1000), 0);
    assert_eq!(QualityTarget::collectable_tier(550, 1000), 1);
    assert_eq!(QualityTarget::collectable_tier(749, 1000), 1);
    assert_eq!(QualityTarget::collectable_tier(750, 1000), 2);
    assert_eq!(QualityTarget::collectable_tier(949, 1000), 2);
    assert_eq!(QualityTarget::collectable_tier(950, 1000), 3);
    assert_eq!(QualityTarget::collectable_tier(u32::MAX, 1000), 3);
    assert_eq!(QualityTarget::collectable_tier(0, 1), 3);
}

#[test]
fn defaults_of_the_configs() {
    assert_eq!(QualityTarget::default(), QualityTarget::Full);
    assert_eq!(
        SolverConfig::default(),
        SolverConfig {
            quality_target: QualityTarget::Full,
            backload_progress: false,
            adversarial: false
        }
    );
    assert_eq!(MinimumStats::default(), MinimumStats { craftsmanship: None, control: None, cp: None });
    let app = AppConfig::default();
    assert_eq!(app.zoom_percentage, 100);
    assert_eq!(app.num_threads, None);
    assert_ne!(QualitySource::HqMaterialList([0; 6]), QualitySource::Value(0));
}

#[test]
fn remaining_quality_is_the_target_less_the_start() {
    let config = SolverConfig { quality_target: QualityTarget::CollectableT2, ..SolverConfig::default() };
    assert_eq!(config.remaining_quality(1000, 0), 750);
    assert_eq!(config.remaining_quality(1000, 700), 50);
    assert_eq!(config.remaining_quality(1000, 750), 0);
    assert_eq!(config.remaining_quality(1000, 900), 0);
    let custom = SolverConfig { quality_target: QualityTarget::Custom(5000), ..config };
    assert_eq!(custom.remaining_quality(1000, 400), 4600);
}

fn stats(craftsmanship: u16) -> CrafterStats {
    CrafterStats {
        craftsmanship,
        control: 4000,
        cp: 600,
        level: 100,
        manipulation: true,
        heart_and_soul: false,
        quick_innovation: false,
    }
}

#[test]
fn new_crafter_config_is_attached_to_the_second_job() {
    let config = CrafterConfig::new(stats(4900));
    assert_eq!(config.selected_job, 1);
    assert_eq!(config.crafter_stats, [stats(4900); 8]);
    assert!(!config.is_detached());
    assert_eq!(*config.active_stats(), stats(4900));
}

#[test]
fn active_stats_follow_the_selected_job_while_attached() {
    let mut config = CrafterConfig::new(stats(1));
    config.crafter_stats[3] = stats(33);
    config.selected_job = 3;
    assert_eq!(*config.active_stats(), stats(33));
    config.detach_from_job();
    assert!(config.is_detached());
    assert_eq!(*config.active_stats(), stats(1));
    config.reset_to_job();
    assert!(!config.is_detached());
    assert_eq!(*config.active_stats(), stats(33));
}

#[test]
fn active_stats_mut_copies_the_job_once() {
    let mut config = CrafterConfig::new(stats(1));
    config.crafter_stats[2] = stats(22);
    config.selected_job = 2;
    // Attached: the working stats become those of the job, then change.
    config.active_stats_mut().craftsmanship = 500;
    assert_eq!(config.crafter_stats[2], stats(22));
    // Still attached, so what is read is the job.
    assert_eq!(*config.active_stats(), stats(22));
    // The change is kept in the working stats: no second copy for the same job.
    assert_eq!(*config.active_stats_mut(), stats(500));
    config.detach_from_job();
    assert_eq!(*config.active_stats(), stats(500));
    // Detached: no copy at all.
    config.selected_job = 5;
    config.active_stats_mut().control = 1;
    assert_eq!(config.active_stats().craftsmanship, 500);
    assert_eq!(config.active_stats().control, 1);
    // Attached again and on another job: copied anew.
    config.reset_to_job();
    assert_eq!(*config.active_stats_mut(), stats(1));
}
