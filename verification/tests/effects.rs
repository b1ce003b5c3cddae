use std::sync::Arc;
use toid::music_state::effects::{apply_chain, mix, Effect, EffectInfo, EffectInstance, ToLeftEffect};
use toid::resource_management::resource_manager::{ResourceManager, SampleResource};

struct Nothing {}

impl SampleResource for Nothing {
    fn get_samples(
        &self,
        _preset_idx: usize,
        _pitch: u8,
        _start: usize,
        _end: usize,
    ) -> Result<(Vec<i32>, Vec<i32>), String> {
        Err("there are no samples".to_string())
    }
}

impl ResourceManager for Nothing {
    type Resource = Nothing;

    fn get_sample_resource(&self, _name: &String) -> Result<Arc<Nothing>, String> {
        Err("there are no resources".to_string())
    }
}

fn to_left() -> EffectInstance {
    EffectInfo::ToLeftEffect.get_effect(Arc::new(Nothing {}))
}

#[test]
fn to_left_sums_into_the_left_channel() {
    let mut effect = ToLeftEffect {};
    let (left, right) = effect.effect(&vec![1, -2, 300, 0], &vec![10, 20, -300, 0]);
    assert_eq!(left, vec![11, 18, 0, 0]);
    assert_eq!(right, vec![0, 0, 0, 0]);
}

#[test]
fn to_left_clips_the_sum() {
    let mut effect = ToLeftEffect {};
    let (left, right) = effect.effect(&vec![i32::MAX, i32::MIN, i32::MAX], &vec![1, -1, i32::MIN]);
    assert_eq!(left, vec![i32::MAX, i32::MIN, -1]);
    assert_eq!(right, vec![0, 0, 0]);
}

#[test]
fn to_left_stops_with_the_shorter_channel() {
    let mut effect = ToLeftEffect {};
    let (left, right) = effect.effect(&vec![1, 2, 3], &vec![10]);
    assert_eq!(left, vec![11]);
    assert_eq!(right, vec![0]);
    let (left, right) = effect.effect(&vec![], &vec![10]);
    assert_eq!(left.len(), 0);
    assert_eq!(right.len(), 0);
}

#[test]
fn mix_adds_and_clips() {
    assert_eq!(mix(2, 3), 5);
    assert_eq!(mix(i32::MAX, 1), i32::MAX);
    assert_eq!(mix(i32::MIN, -1), i32::MIN);
    assert_eq!(mix(i32::MIN, i32::MAX), -1);
}

#[test]
fn a_description_makes_its_effect() {
    let mut effect = to_left();
    assert!(matches!(effect, EffectInstance::ToLeft(_)));
    let (left, right) = effect.effect(&vec![4], &vec![5]);
    assert_eq!((left, right), (vec![9], vec![0]));
}

#[test]
fn a_chain_gives_each_effect_what_the_one_before_gave() {
    let mut none: Vec<EffectInstance> = vec![];
    assert_eq!(apply_chain(&mut none, vec![1, 2], vec![3, 4]), (vec![1, 2], vec![3, 4]));
    let mut twice = vec![to_left(), to_left()];
    assert_eq!(apply_chain(&mut twice, vec![1, 2], vec![3, 4]), (vec![4, 6], vec![0, 0]));
    assert_eq!(twice.len(), 2);
}
