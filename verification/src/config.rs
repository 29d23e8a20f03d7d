//! What the user can configure, and which configurations are usable.

use crate::single::{lemma_rounded_order, lemma_small_int, Number, Single};
use crate::text;
use vstd::prelude::*;

verus! {

/// The whole configuration.
#[derive(Debug)]
pub struct Config {
    /// Time between two readings of the light sensor.
    pub poll_interval_ms: u64,
    /// How long a transition takes.
    pub ramp_duration_ms: u64,
    /// In how many steps a transition is made.
    pub ramp_steps: u32,
    /// Weight of a new reading in the moving average.
    pub ema_alpha: Single,
    /// How long a manual change suspends automatic control of its channel.
    pub override_timeout_s: u64,
    /// By how many percent the light must change to end a manual override early.
    pub override_lux_drift_pct: Single,
    /// Time without input after which the seat counts as idle.
    pub idle_timeout_ms: u32,
    /// Time left to others after the seat becomes active again.
    pub idle_resume_grace_ms: u64,
    pub display: Channel,
    pub keyboard: Channel,
}

/// The configuration of one backlight.
#[derive(Debug)]
pub struct Channel {
    pub enabled: bool,
    /// Name of the device within its sysfs class.
    pub device: String,
    /// The sysfs class that the device is in: "backlight" or "leds".
    pub class: String,
    /// Brightness, in percent, that the curve is not followed below.
    pub min_pct: Single,
    /// Smallest change of the target, in percent, that is acted upon.
    pub hysteresis_pct: Single,
    /// Light from which on the backlight is switched off.
    pub cutoff_lux: Option<Single>,
    /// Points of lux and percent, in ascending order of lux.
    pub curve: Vec<[Single; 2]>,
}

/// Why a configuration is not usable.
#[derive(Debug)]
pub enum ConfigError {
    EmptyCurve { device: String },
    UnsortedCurve { device: String },
    AlphaOutOfRange,
    NoRampSteps,
}

/// A fault of a configuration, in the order in which faults are looked for.
pub enum Fault {
    EmptyCurve { device: Seq<char> },
    UnsortedCurve { device: Seq<char> },
    AlphaOutOfRange,
    NoRampSteps,
}

impl View for ConfigError {
    type V = Fault;

    open spec fn view(&self) -> Fault {
        match self {
            ConfigError::EmptyCurve { device } => Fault::EmptyCurve { device: device@ },
            ConfigError::UnsortedCurve { device } => Fault::UnsortedCurve { device: device@ },
            ConfigError::AlphaOutOfRange => Fault::AlphaOutOfRange,
            ConfigError::NoRampSteps => Fault::NoRampSteps,
        }
    }
}

/// The points of a curve as numbers.
pub open spec fn points(curve: Seq<[Single; 2]>) -> Seq<(Number, Number)> {
    Seq::new(curve.len(), |i: int| (curve[i][0]@, curve[i][1]@))
}

/// Whether each point has at least as much lux as the one before it.
pub open spec fn ascending(points: Seq<(Number, Number)>) -> bool {
    forall|i: int| 0 < i < points.len() ==> points[i - 1].0.le(#[trigger] points[i].0)
}

impl Channel {
    /// The points of the curve.
    pub open spec fn points(self) -> Seq<(Number, Number)> {
        points(self.curve@)
    }

    /// What is wrong with a channel that is in use.
    pub open spec fn fault(self) -> Option<Fault> {
        if !self.enabled {
            None
        } else if self.curve@.len() == 0 {
            Some(Fault::EmptyCurve { device: self.device@ })
        } else if !ascending(self.points()) {
            Some(Fault::UnsortedCurve { device: self.device@ })
        } else {
            None
        }
    }

    /// Whether two channels are configured alike.
    pub open spec fn alike(self, other: Channel) -> bool {
        &&& self.enabled == other.enabled
        &&& self.device@ == other.device@
        &&& self.class@ == other.class@
        &&& self.min_pct == other.min_pct
        &&& self.hysteresis_pct == other.hysteresis_pct
        &&& self.cutoff_lux == other.cutoff_lux
        &&& self.curve@ == other.curve@
    }

    fn validate(&self) -> (r: Result<(), ConfigError>)
        ensures
            match r {
                Ok(_) => self.fault() is None,
                Err(e) => self.fault() == Some(e@),
            },
    {
        if !self.enabled {
            return Ok(());
        }
        if self.curve.len() == 0 {
            return Err(ConfigError::EmptyCurve { device: self.device.clone() });
        }
        let mut i: usize = 1;
        while i < self.curve.len()
            invariant
                1 <= i <= self.curve@.len(),
                self.enabled,
                forall|j: int|
                    0 < j < i ==> self.points()[j - 1].0.le(#[trigger] self.points()[j].0),
            decreases self.curve@.len() - i,
        {
            if !self.curve[i - 1][0].le(self.curve[i][0]) {
                assert(!self.points()[i - 1].0.le(self.points()[i as int].0));
                return Err(ConfigError::UnsortedCurve { device: self.device.clone() });
            }
            i = i + 1;
        }
        Ok(())
    }
}

impl Clone for Channel {
    fn clone(&self) -> (r: Channel)
        ensures
            r.alike(*self),
    {
        let mut curve: Vec<[Single; 2]> = Vec::new();
        let mut i: usize = 0;
        while i < self.curve.len()
            invariant
                i <= self.curve@.len(),
                curve@ == self.curve@.take(i as int),
            decreases self.curve@.len() - i,
        {
            curve.push(self.curve[i]);
            i = i + 1;
        }
        assert(self.curve@.take(i as int) == self.curve@);
        Channel {
            enabled: self.enabled,
            device: self.device.clone(),
            class: self.class.clone(),
            min_pct: self.min_pct,
            hysteresis_pct: self.hysteresis_pct,
            cutoff_lux: self.cutoff_lux,
            curve,
        }
    }
}

impl Config {
    /// The first fault of a configuration.
    pub open spec fn fault(self) -> Option<Fault> {
        if self.display.fault() is Some {
            self.display.fault()
        } else if self.keyboard.fault() is Some {
            self.keyboard.fault()
        } else if !(Number::of_int(0).le(self.ema_alpha@) && self.ema_alpha@.le(
            Number::of_int(1),
        )) {
            Some(Fault::AlphaOutOfRange)
        } else if self.ramp_steps == 0 {
            Some(Fault::NoRampSteps)
        } else {
            None
        }
    }

    /// Checks that the configuration is usable.
    pub fn validate(&self) -> (r: Result<(), ConfigError>)
        ensures
            match r {
                Ok(_) => self.fault() is None,
                Err(e) => self.fault() == Some(e@),
            },
    {
        if let Err(e) = self.display.validate() {
            return Err(e);
        }
        if let Err(e) = self.keyboard.validate() {
            return Err(e);
        }
        if !(Single::from_u32(0).le(self.ema_alpha) && self.ema_alpha.le(Single::from_u32(1))) {
            return Err(ConfigError::AlphaOutOfRange);
        }
        if self.ramp_steps == 0 {
            return Err(ConfigError::NoRampSteps);
        }
        Ok(())
    }
}

/// What a fault is reported as.
pub open spec fn fault_message(fault: Fault) -> Seq<char> {
    match fault {
        Fault::EmptyCurve { device } => "curve for "@ + device + " is empty"@,
        Fault::UnsortedCurve { device } => "curve for "@ + device
            + " must be sorted by lux ascending"@,
        Fault::AlphaOutOfRange => "ema_alpha must be in [0,1]"@,
        Fault::NoRampSteps => "ramp_steps must be > 0"@,
    }
}

impl ConfigError {
    /// The error in words.
    pub fn message(&self) -> (m: String)
        ensures
            m@ == fault_message(self@),
    {
        match self {
            ConfigError::EmptyCurve { device } => "curve for ".to_owned().concat(
                device.as_str(),
            ).concat(" is empty"),
            ConfigError::UnsortedCurve { device } => "curve for ".to_owned().concat(
                device.as_str(),
            ).concat(" must be sorted by lux ascending"),
            ConfigError::AlphaOutOfRange => "ema_alpha must be in [0,1]".to_owned(),
            ConfigError::NoRampSteps => "ramp_steps must be > 0".to_owned(),
        }
    }
}

/// A point of a curve with whole numbers.
pub open spec fn whole_point(lux: int, pct: int) -> (Number, Number) {
    (Number::of_int(lux), Number::of_int(pct))
}

impl Channel {
    /// The channel that drives the built-in panel, unless configured otherwise.
    pub open spec fn is_default_display(self) -> bool {
        &&& self.enabled
        &&& self.device@ == "apple-panel-bl"@
        &&& self.class@ == "backlight"@
        &&& self.min_pct@ == Number::of_int(5)
        &&& self.hysteresis_pct@ == Number::rounded(false, 3real / 2real)
        &&& self.cutoff_lux is None
        &&& self.points() == seq![
            whole_point(0, 5),
            whole_point(10, 15),
            whole_point(50, 30),
            whole_point(200, 55),
            whole_point(600, 80),
            whole_point(2000, 100),
        ]
    }

    /// The channel that drives the keyboard's light, unless configured otherwise.
    pub open spec fn is_default_keyboard(self) -> bool {
        &&& self.enabled
        &&& self.device@ == "kbd_backlight"@
        &&& self.class@ == "leds"@
        &&& self.min_pct@ == Number::of_int(0)
        &&& self.hysteresis_pct@ == Number::of_int(2)
        &&& self.cutoff_lux is Some
        &&& self.cutoff_lux->0@ == Number::of_int(150)
        &&& self.points() == seq![
            whole_point(0, 40),
            whole_point(20, 25),
            whole_point(80, 10),
            whole_point(150, 0),
        ]
    }
}

impl Config {
    /// The configuration in effect unless the user writes another one.
    pub open spec fn is_default(self) -> bool {
        &&& self.poll_interval_ms == 250
        &&& self.ramp_duration_ms == 200
        &&& self.ramp_steps == 20
        &&& self.ema_alpha@ == Number::rounded(false, 1real / 5real)
        &&& self.override_timeout_s == 60
        &&& self.override_lux_drift_pct@ == Number::of_int(75)
        &&& self.idle_timeout_ms == 30_000
        &&& self.idle_resume_grace_ms == 500
        &&& self.display.is_default_display()
        &&& self.keyboard.is_default_keyboard()
    }
}

fn point(lux: u32, pct: u32) -> (p: [Single; 2])
    ensures
        (p[0]@, p[1]@) == whole_point(lux as int, pct as int),
{
    [Single::from_u32(lux), Single::from_u32(pct)]
}

fn default_display() -> (c: Channel)
    ensures
        c.is_default_display(),
{
    let mut curve: Vec<[Single; 2]> = Vec::new();
    curve.push(point(0, 5));
    curve.push(point(10, 15));
    curve.push(point(50, 30));
    curve.push(point(200, 55));
    curve.push(point(600, 80));
    curve.push(point(2000, 100));
    assert(points(curve@) =~= seq![
        whole_point(0, 5),
        whole_point(10, 15),
        whole_point(50, 30),
        whole_point(200, 55),
        whole_point(600, 80),
        whole_point(2000, 100),
    ]);
    Channel {
        enabled: true,
        device: "apple-panel-bl".to_owned(),
        class: "backlight".to_owned(),
        min_pct: Single::from_u32(5),
        hysteresis_pct: Single::ratio(3, 2),
        cutoff_lux: None,
        curve,
    }
}

fn default_keyboard() -> (c: Channel)
    ensures
        c.is_default_keyboard(),
{
    let mut curve: Vec<[Single; 2]> = Vec::new();
    curve.push(point(0, 40));
    curve.push(point(20, 25));
    curve.push(point(80, 10));
    curve.push(point(150, 0));
    assert(points(curve@) =~= seq![
        whole_point(0, 40),
        whole_point(20, 25),
        whole_point(80, 10),
        whole_point(150, 0),
    ]);
    Channel {
        enabled: true,
        device: "kbd_backlight".to_owned(),
        class: "leds".to_owned(),
        min_pct: Single::from_u32(0),
        hysteresis_pct: Single::from_u32(2),
        cutoff_lux: Some(Single::from_u32(150)),
        curve,
    }
}

impl Default for Config {
    fn default() -> (c: Config)
        ensures
            c.is_default(),
    {
        Config {
            poll_interval_ms: 250,
            ramp_duration_ms: 200,
            ramp_steps: 20,
            ema_alpha: Single::ratio(1, 5),
            override_timeout_s: 60,
            override_lux_drift_pct: Single::from_u32(75),
            idle_timeout_ms: 30_000,
            idle_resume_grace_ms: 500,
            display: default_display(),
            keyboard: default_keyboard(),
        }
    }
}

/// The default configuration is usable.
pub proof fn law_default_is_usable(c: Config)
    requires
        c.is_default(),
    ensures
        c.fault() is None,
{
    lemma_small_int(0);
    lemma_small_int(1);
    lemma_small_int(10);
    lemma_small_int(20);
    lemma_small_int(50);
    lemma_small_int(80);
    lemma_small_int(150);
    lemma_small_int(200);
    lemma_small_int(600);
    lemma_small_int(2000);
    assert(ascending(c.display.points()));
    assert(ascending(c.keyboard.points()));
    lemma_rounded_order(0real, 1real / 5real);
    lemma_rounded_order(1real / 5real, 1real);
}

/// The path of the configuration file, in our directory for configuration.
pub fn default_path(config_home: &str) -> (path: String)
    ensures
        path@ == text::joined(config_home@, "config.toml"@),
{
    text::join(config_home, "config.toml")
}

/// A configuration and whether to save it for the user to edit.
#[derive(Debug)]
pub struct Loaded {
    pub config: Config,
    pub save: bool,
}

/// Settles which configuration is in effect. `file` is what the configuration
/// file holds, if there is one, and `explicit` says whether the user named it.
/// Without a file the default is in effect, and is saved where the file is
/// looked for unless the user named another place.
pub fn load(explicit: bool, file: Option<Config>) -> (r: Result<Loaded, ConfigError>)
    ensures
        match file {
            None => r matches Ok(loaded) && loaded.config.is_default() && loaded.save == !explicit,
            Some(config) => match r {
                Ok(loaded) => loaded.config == config && !loaded.save && config.fault() is None,
                Err(e) => config.fault() == Some(e@),
            },
        },
{
    match file {
        None => Ok(Loaded { config: Config::default(), save: !explicit }),
        Some(config) => match config.validate() {
            Ok(_) => Ok(Loaded { config, save: false }),
            Err(e) => Err(e),
        },
    }
}

/// A configuration is usable if and only if each channel in use has a curve
/// whose points are in ascending order of light, the weight is from zero to one
/// and transitions have steps.
pub proof fn law_usable_configurations(c: Config)
    ensures
        (c.fault() is None) <==> {
            &&& c.display.enabled ==> c.display.curve@.len() > 0 && forall|k: int|
                0 < k < c.display.curve@.len() ==> c.display.curve@[k - 1][0]@.le(
                    #[trigger] c.display.curve@[k][0]@,
                )
            &&& c.keyboard.enabled ==> c.keyboard.curve@.len() > 0 && forall|k: int|
                0 < k < c.keyboard.curve@.len() ==> c.keyboard.curve@[k - 1][0]@.le(
                    #[trigger] c.keyboard.curve@[k][0]@,
                )
            &&& c.ema_alpha@ is Finite
            &&& 0real <= c.ema_alpha@.value() <= 1real
            &&& c.ramp_steps > 0
        },
{
    lemma_small_int(0);
    lemma_small_int(1);
    lemma_ascending(c.display.curve@);
    lemma_ascending(c.keyboard.curve@);
}

/// That points are ascending says nothing about their percentages.
proof fn lemma_ascending(curve: Seq<[Single; 2]>)
    ensures
        ascending(points(curve)) <==> forall|k: int|
            0 < k < curve.len() ==> curve[k - 1][0]@.le(#[trigger] curve[k][0]@),
{
    if ascending(points(curve)) {
        assert forall|k: int| 0 < k < curve.len() implies curve[k - 1][0]@.le(
            #[trigger] curve[k][0]@,
        ) by {
            assert(points(curve)[k - 1].0.le(points(curve)[k].0));
        }
    }
    if forall|k: int| 0 < k < curve.len() ==> curve[k - 1][0]@.le(#[trigger] curve[k][0]@) {
        assert forall|k: int| 0 < k < points(curve).len() implies points(curve)[k - 1].0.le(
            #[trigger] points(curve)[k].0,
        ) by {
            assert(curve[k - 1][0]@.le(curve[k][0]@));
        }
    }
}

/// The display is looked at before the keyboard, an empty curve is told before
/// an unsorted one, and a fault of a curve names its device.
pub proof fn law_first_fault_is_told(c: Config)
    ensures
        c.display.enabled && c.display.curve@.len() == 0 ==> c.fault() == Some(
            Fault::EmptyCurve { device: c.display.device@ },
        ),
        (!c.display.enabled) && c.keyboard.enabled && c.keyboard.curve@.len() == 0 ==> c.fault()
            == Some(Fault::EmptyCurve { device: c.keyboard.device@ }),
        c.display.fault() is None && c.keyboard.fault() is None && c.ema_alpha@ is Finite
            && 0real <= c.ema_alpha@.value() <= 1real && c.ramp_steps == 0 ==> c.fault() == Some(
            Fault::NoRampSteps,
        ),
        c.display.fault() is None && c.keyboard.fault() is None && !(c.ema_alpha@ is Finite
            && 0real <= c.ema_alpha@.value() <= 1real) ==> c.fault() == Some(
            Fault::AlphaOutOfRange,
        ),
        c.display.enabled && c.display.curve@.len() > 0 && c.display.fault() is Some ==> c.fault()
            == Some(Fault::UnsortedCurve { device: c.display.device@ }),
        c.display.fault() is None && c.keyboard.enabled && c.keyboard.curve@.len() > 0
            && c.keyboard.fault() is Some ==> c.fault() == Some(
            Fault::UnsortedCurve { device: c.keyboard.device@ },
        ),
{
    lemma_small_int(0);
    lemma_small_int(1);
}

/// What is reported about a curve names its device.
pub proof fn law_messages_name_the_device(device: Seq<char>)
    ensures
        fault_message(Fault::EmptyCurve { device }) == "curve for "@ + device + " is empty"@,
        fault_message(Fault::UnsortedCurve { device }) == "curve for "@ + device
            + " must be sorted by lux ascending"@,
{
}

}
