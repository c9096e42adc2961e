//! The startup configuration: the physical parameters the process loads
//! once and never mutates, plus the per-reading entry point that the
//! display loop evaluates.

use vstd::prelude::*;

verus! {

use crate::model::{
    spec_soda_temp,
    soda_temp,
    valid_params,
    AREA_MAX,
    CP_MAX,
    TEMP_MAX,
    TIME_MAX,
    VOL_MAX,
};

/// The convective heat-transfer coefficient, fixed at 10 W/(m^2*K),
/// in micro-units.
pub const H_MICRO: u64 = 10_000_000;

/// The density of the drink, fixed at 1000 kg/m^3, in micro-units.
pub const DENSITY_MICRO: u64 = 1_000_000_000;

/// The configurable physical parameters, in micro-units: temperatures in
/// micro-degrees Celsius, the area in micro-square-metres, the heat
/// capacity in micro-J/(kg*K).
pub struct Config {
    pub environment_temperature: i64,
    pub initial_temperature: i64,
    pub can_area: u64,
    pub specific_heat_capacity: u64,
    pub check_volume: bool,
}

impl Config {
    /// The ranges within which the model's arithmetic is exact.
    pub open spec fn valid(self) -> bool {
        &&& -(TEMP_MAX as int) <= self.environment_temperature as int <= TEMP_MAX as int
        &&& -(TEMP_MAX as int) <= self.initial_temperature as int <= TEMP_MAX as int
        &&& 0 < self.can_area <= AREA_MAX
        &&& 0 < self.specific_heat_capacity <= CP_MAX
    }

    /// Whether a volume must be obtained from the user rather than
    /// defaulted.
    pub fn should_prompt(&self) -> (b: bool)
        ensures
            b == self.check_volume,
    {
        self.check_volume
    }
}

/// One reading of the display loop: the model evaluated at `t`
/// micro-minutes with the fixed coefficient and density and the
/// configured parameters.
pub fn current_temperature(config: &Config, volume_m3_micro: u64, t: u64) -> (r: i64)
    requires
        config.valid(),
        0 < volume_m3_micro <= VOL_MAX,
        t <= TIME_MAX,
    ensures
        r == spec_soda_temp(
            t as int,
            config.environment_temperature as int,
            config.initial_temperature as int,
            H_MICRO as int,
            config.can_area as int,
            DENSITY_MICRO as int,
            volume_m3_micro as int,
            config.specific_heat_capacity as int,
        ),
{
    soda_temp(
        t,
        config.environment_temperature,
        config.initial_temperature,
        H_MICRO,
        config.can_area,
        DENSITY_MICRO,
        volume_m3_micro,
        config.specific_heat_capacity,
    )
}

} // verus!
