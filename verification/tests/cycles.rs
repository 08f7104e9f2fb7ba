//! Cycle detection over a request chain.

use dice::cycles::ComputationData;
use dice::cycles::DetectCycles;
use dice::data::UserComputationData;
use dice::error::DiceError;
use dice::key::DiceKeyErased;

fn k(x: u64) -> DiceKeyErased {
    DiceKeyErased::Key { payload: x }
}

#[test]
fn cycle_detection_when_no_cycles() {
    let ctx = ComputationData::new(UserComputationData::new(), DetectCycles::Enabled);
    let ctx = ctx.subrequest(k(1)).unwrap();
    let ctx = ctx.subrequest(k(2)).unwrap();
    let ctx = ctx.subrequest(k(3)).unwrap();
    let _ctx = ctx.subrequest(k(4)).unwrap();
}

#[test]
fn cycle_detection_when_cycles() {
    let ctx = ComputationData::new(UserComputationData::new(), DetectCycles::Enabled);
    let ctx = ctx.subrequest(k(1)).unwrap();
    let ctx = ctx.subrequest(k(2)).unwrap();
    let ctx = ctx.subrequest(k(3)).unwrap();
    let ctx = ctx.subrequest(k(4)).unwrap();
    match ctx.subrequest(k(1)) {
        Ok(_) => {
            panic!("should have cycle error")
        }
        Err(e) => match e {
            DiceError::Cycle {
                trigger,
                cyclic_keys,
            } => {
                assert!(
                    trigger == k(1),
                    "expected trigger key to be `{:?}` but was `{:?}`",
                    k(1),
                    trigger
                );
                assert_eq!(cyclic_keys, vec![k(1), k(2), k(3), k(4)]);
            }
            _ => {
                panic!("wrong error type")
            }
        },
    }
}

#[test]
fn cycle_detection_disabled_allows_repeats() {
    let ctx = ComputationData::new(UserComputationData::new(), DetectCycles::Disabled);
    let ctx = ctx.subrequest(k(1)).unwrap();
    let ctx = ctx.subrequest(k(2)).unwrap();
    let _ctx = ctx.subrequest(k(1)).unwrap();
}

#[test]
fn cycle_suffix_starts_at_first_occurrence() {
    let ctx = ComputationData::new(UserComputationData::new(), DetectCycles::Enabled);
    let ctx = ctx.subrequest(k(7)).unwrap();
    let ctx = ctx.subrequest(k(8)).unwrap();
    let ctx = ctx.subrequest(k(9)).unwrap();
    match ctx.subrequest(k(8)) {
        Ok(_) => panic!("should have cycle error"),
        Err(DiceError::Cycle {
            trigger,
            cyclic_keys,
        }) => {
            assert_eq!(trigger, k(8));
            assert_eq!(cyclic_keys, vec![k(8), k(9)]);
        }
        Err(_) => panic!("wrong error type"),
    }
}
