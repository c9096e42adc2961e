use soda_cooling::config::{current_temperature, Config, DENSITY_MICRO, H_MICRO};
use soda_cooling::display::{deci_celsius, elapsed_micro_minutes};
use soda_cooling::model::{soda_temp, TIME_MAX};

// The worked scenario: ambient 4.0 C, initial 25.0 C, h = 10 W/(m^2*K),
// A = 0.0134 m^2 (a standard 330 ml can), rho = 1000 kg/m^3,
// V = 0.00033 m^3, c_p = 4186 J/(kg*K); everything in micro-units.
const T_ENV: i64 = 4_000_000;
const T_0: i64 = 25_000_000;
const H: u64 = 10_000_000;
const AREA: u64 = 13_400;
const RHO: u64 = 1_000_000_000;
const VOL: u64 = 330;
const CP: u64 = 4_186_000_000;

fn scenario(t: u64) -> i64 {
    soda_temp(t, T_ENV, T_0, H, AREA, RHO, VOL, CP)
}

#[test]
fn initial_temperature_is_exact() {
    assert_eq!(scenario(0), T_0);
}

#[test]
fn scenario_after_an_hour() {
    // One hour in micro-minutes; the exact fixed-point value is within
    // a hundredth of a degree of the real-valued model's 18.810 C.
    let r60 = scenario(60_000_000);
    assert_eq!(r60, 18_818_501);
    assert!(T_ENV < r60 && r60 < T_0);
}

#[test]
fn scenario_hour_closer_to_ambient_than_ten_minutes() {
    let r10 = scenario(10_000_000);
    let r60 = scenario(60_000_000);
    assert_eq!(r10, 23_824_195);
    assert!(r60 - T_ENV < r10 - T_ENV);
}

#[test]
fn cooling_is_monotone_toward_ambient() {
    let times: [u64; 7] =
        [0, 1_000_000, 5_000_000, 10_000_000, 60_000_000, 1_000_000_000, 100_000_000_000];
    let mut previous: i64 = i64::MAX;
    for t in times {
        let r = scenario(t);
        assert!(r <= previous);
        assert!(T_ENV <= r && r <= T_0);
        previous = r;
    }
}

#[test]
fn warming_mirrors_cooling() {
    // Swapping the two temperatures reflects the reading about their
    // midpoint: the excess decays by the same factor either way.
    let cooling = scenario(60_000_000);
    let warming = soda_temp(60_000_000, T_0, T_ENV, H, AREA, RHO, VOL, CP);
    assert_eq!(warming, 10_181_499);
    assert_eq!(cooling + warming, T_ENV + T_0);
}

#[test]
fn at_ambient_stays_at_ambient() {
    for t in [0u64, 1_000_000, 60_000_000, 100_000_000_000] {
        assert_eq!(soda_temp(t, 20_000_000, 20_000_000, H, AREA, RHO, VOL, CP), 20_000_000);
    }
}

#[test]
fn long_run_reaches_ambient_exactly() {
    assert_eq!(scenario(TIME_MAX), T_ENV);
}

#[test]
fn current_temperature_uses_fixed_coefficient_and_density() {
    let config = Config {
        environment_temperature: T_ENV,
        initial_temperature: T_0,
        can_area: AREA,
        specific_heat_capacity: CP,
        check_volume: false,
    };
    let direct = soda_temp(10_000_000, T_ENV, T_0, H_MICRO, AREA, DENSITY_MICRO, VOL, CP);
    assert_eq!(current_temperature(&config, VOL, 10_000_000), direct);
    assert_eq!(current_temperature(&config, VOL, 10_000_000), 23_824_195);
}

#[test]
fn end_to_end_scenario() {
    // The whole pipeline as the program runs it: a prompt reply of
    // "330", converted to the model's volume, evaluated at start and
    // after an hour.
    let config = Config {
        environment_temperature: T_ENV,
        initial_temperature: T_0,
        can_area: AREA,
        specific_heat_capacity: CP,
        check_volume: true,
    };
    let micro_ml = soda_cooling::volume::initial_volume(config.should_prompt(), Some(b"330"));
    let volume = soda_cooling::volume::volume_m3_for_model(micro_ml).unwrap();
    assert_eq!(volume, 330);
    assert_eq!(current_temperature(&config, volume, 0), 25_000_000);
    let after_hour = current_temperature(&config, volume, 60_000_000);
    assert!(T_ENV < after_hour && after_hour < T_0);
    assert_eq!(after_hour, 18_818_501);
}

#[test]
fn prompt_decision_follows_the_flag() {
    let mut config = Config {
        environment_temperature: T_ENV,
        initial_temperature: T_0,
        can_area: AREA,
        specific_heat_capacity: CP,
        check_volume: false,
    };
    assert!(!config.should_prompt());
    config.check_volume = true;
    assert!(config.should_prompt());
}

#[test]
fn elapsed_minutes_from_milliseconds() {
    assert_eq!(elapsed_micro_minutes(0), 0);
    assert_eq!(elapsed_micro_minutes(60_000), 1_000_000);
    assert_eq!(elapsed_micro_minutes(90_000), 1_500_000);
    assert_eq!(elapsed_micro_minutes(100), 1_666);
}

#[test]
fn elapsed_minutes_saturate() {
    assert_eq!(elapsed_micro_minutes(u64::MAX), TIME_MAX);
}

#[test]
fn rounding_to_tenths() {
    assert_eq!(deci_celsius(18_818_501), 188);
    assert_eq!(deci_celsius(25_060_000), 251);
    assert_eq!(deci_celsius(49_999), 0);
    assert_eq!(deci_celsius(50_000), 1);
    assert_eq!(deci_celsius(-4_450_000), -45);
    assert_eq!(deci_celsius(-49_999), 0);
    assert_eq!(deci_celsius(0), 0);
}
