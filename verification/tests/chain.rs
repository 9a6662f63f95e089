use practice::chain::{Chain, ChainError, Plug, PlugResult};

/// A plug made of a closure, as users of the chain write them.
struct F(Box<dyn FnMut(&mut i32) -> PlugResult<F>>);

impl Plug<i32> for F {
    fn execute(&mut self, ctx: &mut i32) -> PlugResult<F> {
        (self.0)(ctx)
    }
}

fn plug(f: impl FnMut(&mut i32) -> PlugResult<F> + 'static) -> F {
    F(Box::new(f))
}

#[test]
fn basic_works() {
    let mut chain: Chain<i32, F> = Chain::new(vec![
        plug(|data: &mut i32| {
            *data += 1;
            PlugResult::Continue
        }),
        plug(|data: &mut i32| {
            *data += 1;
            PlugResult::Continue
        }),
    ]);

    let mut data = 1;
    assert!(chain.execute(&mut data).is_ok());
    assert_eq!(data, 3);
}

#[test]
fn rerun_works() {
    let mut number = 1;
    let mut chain: Chain<i32, F> = Chain::new(vec![
        plug(move |data: &mut i32| {
            if number == 1 {
                number += 1;
                return PlugResult::Rerun;
            }
            *data += 1;
            PlugResult::Continue
        }),
        plug(|data: &mut i32| {
            *data += 1;
            PlugResult::Continue
        }),
    ]);

    let mut data = 1;
    assert!(chain.execute(&mut data).is_ok());
    assert_eq!(data, 3);
}

#[test]
fn replace_works() {
    let mut chain: Chain<i32, F> = Chain::new(vec![
        plug(|data: &mut i32| {
            *data += 1;
            PlugResult::Continue
        }),
        plug(|_data: &mut i32| {
            PlugResult::Replace(vec![
                plug(|data: &mut i32| {
                    *data += 2;
                    PlugResult::Continue
                }),
                plug(|data: &mut i32| {
                    *data += 2;
                    PlugResult::Continue
                }),
            ])
        }),
    ]);

    let mut data = 1;
    assert!(chain.execute(&mut data).is_ok());
    assert_eq!(data, 6);
}

#[test]
fn sixth_rerun_fails() {
    let mut calls = 0;
    let mut chain: Chain<i32, F> = Chain::new(vec![plug(move |data: &mut i32| {
        calls += 1;
        *data = calls;
        PlugResult::Rerun
    })]);
    let mut data = 0;
    let r = chain.execute(&mut data);
    assert!(matches!(r, Err(ChainError::TooManyReruns)));
    assert_eq!(r.unwrap_err().message(), "two many reruns");
    // the plug ran once, then was rerun five times
    assert_eq!(data, 6);
}

#[test]
fn terminate_stops_and_error_is_reported() {
    let mut chain: Chain<i32, F> = Chain::new(vec![
        plug(|data: &mut i32| {
            *data += 1;
            PlugResult::Terminate
        }),
        plug(|data: &mut i32| {
            *data += 100;
            PlugResult::Continue
        }),
    ]);
    let mut data = 0;
    assert!(chain.execute(&mut data).is_ok());
    assert_eq!(data, 1);

    let mut failing: Chain<i32, F> = Chain::new(vec![plug(|_d: &mut i32| PlugResult::Error("boom".to_string()))]);
    match failing.execute(&mut data) {
        Err(ChainError::Plug(msg)) => assert_eq!(msg, "boom"),
        _ => panic!("expected a plug error"),
    }
}

#[test]
fn apply_follows_the_result() {
    let mut chain: Chain<i32, F> = Chain::new(vec![plug(|_d: &mut i32| PlugResult::Continue)]);
    assert!(!chain.at_end());
    assert!(chain.apply(PlugResult::Rerun).is_none());
    assert!(!chain.at_end());
    assert!(chain.apply(PlugResult::Continue).is_none());
    assert!(chain.at_end());
    let mut data = 0;
    // at its end, the chain runs nothing more
    assert!(chain.execute(&mut data).is_ok());
}

#[test]
fn each_plug_has_its_own_rerun_budget() {
    // each plug counts its calls in the context: the first in the ones, the
    // second in the tens; each reruns five times, then continues
    let make = |unit: i32| {
        let mut calls = 0;
        plug(move |d: &mut i32| {
            calls += 1;
            *d += unit;
            if calls <= 5 { PlugResult::Rerun } else { PlugResult::Continue }
        })
    };
    let mut chain: Chain<i32, F> = Chain::new(vec![make(1), make(10)]);
    let mut data = 0;
    assert!(chain.execute(&mut data).is_ok());
    assert_eq!(data, 66);
    // at its end, running again calls nothing and changes nothing
    assert!(chain.execute(&mut data).is_ok());
    assert_eq!(data, 66);
    let mut empty: Chain<i32, F> = Chain::new(vec![]);
    assert!(empty.execute(&mut data).is_ok());
    assert_eq!(data, 66);
}
