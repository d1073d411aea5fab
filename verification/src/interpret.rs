//! The profile of an interpretable KAN: regularisation, pruning, fine-tuning
//! and structural compaction.

use crate::single::{one, zero, Single, ONE};
use crate::text::{decimal, decimal_text, owned};
use vstd::prelude::*;
use vstd::string::StringExecFns;

verus! {

/// The version of the profile; it changes with the meaning of its fields.
pub const INTERPRET_PROFILE_VERSION: u32 = 1;

/// The single-precision values of 0.001 and 0.05.
pub const DEFAULT_L1: u32 = 0x3a83_126f;

pub const DEFAULT_PRUNE: u32 = 0x3d4c_cccd;

/// What is applied to a model.
#[derive(Clone, Copy, Debug, PartialEq, Eq, Structural)]
pub struct InterpretProfile {
    pub version: u32,
    /// The weight of the activation penalty; 0 for none.
    pub l1: Single,
    /// The relative importance below which an edge is cut; `None` for no
    /// pruning.
    pub prune: Option<Single>,
    /// Epochs of training after pruning.
    pub finetune_epochs: usize,
    /// Remove hidden nodes that pruning left without edges.
    pub compact: bool,
}

/// Why a profile is refused.
#[derive(Clone, Copy, Debug, PartialEq, Eq, Structural)]
pub enum InterpretError {
    Version { found: u32 },
    L1,
    Prune,
    NoFinetune,
    FinetuneWithoutPrune,
}

impl InterpretError {
    /// What is said of the error.
    pub open spec fn text(self) -> Seq<char> {
        match self {
            InterpretError::Version { found } => "версия профиля "@ + decimal(found as nat)
                + " не поддерживается (ожидалась 1)"@,
            InterpretError::L1 => "l1 должен быть конечным и >= 0"@,
            InterpretError::Prune => "prune (отн. порог важности) должен быть в [0, 1)"@,
            InterpretError::NoFinetune => "finetune-epochs должен быть >= 1"@,
            InterpretError::FinetuneWithoutPrune => "finetune-epochs имеет смысл только вместе с prune"@,
        }
    }

    pub fn message(&self) -> (text: String)
        ensures
            text@ == self.text(),
    {
        match *self {
            InterpretError::Version { found } => {
                let mut text: String = owned("версия профиля ");
                text.append(decimal_text(found as u64).as_str());
                text.append(" не поддерживается (ожидалась 1)");
                text
            },
            InterpretError::L1 => owned("l1 должен быть конечным и >= 0"),
            InterpretError::Prune => owned("prune (отн. порог важности) должен быть в [0, 1)"),
            InterpretError::NoFinetune => owned("finetune-epochs должен быть >= 1"),
            InterpretError::FinetuneWithoutPrune => owned(
                "finetune-epochs имеет смысл только вместе с prune",
            ),
        }
    }
}

/// The documented pipeline.
pub open spec fn v1_profile() -> InterpretProfile {
    InterpretProfile {
        version: INTERPRET_PROFILE_VERSION,
        l1: Single { bits: DEFAULT_L1 },
        prune: Some(Single { bits: DEFAULT_PRUNE }),
        finetune_epochs: 20,
        compact: true,
    }
}

/// The base of a pipeline made of explicit settings only.
pub open spec fn bare_profile() -> InterpretProfile {
    InterpretProfile {
        version: INTERPRET_PROFILE_VERSION,
        l1: zero(),
        prune: None,
        finetune_epochs: 10,
        compact: false,
    }
}

impl InterpretProfile {
    /// The first thing wrong with the profile.
    pub open spec fn fault(self) -> Option<InterpretError> {
        if self.version != INTERPRET_PROFILE_VERSION {
            Some(InterpretError::Version { found: self.version })
        } else if !self.l1.finite() || self.l1.less(zero()) {
            Some(InterpretError::L1)
        } else if self.prune is Some && !(zero().at_most(self.prune->0) && self.prune->0.less(
            one(),
        )) {
            Some(InterpretError::Prune)
        } else if self.finetune_epochs == 0 {
            Some(InterpretError::NoFinetune)
        } else {
            None
        }
    }

    pub fn v1() -> (profile: InterpretProfile)
        ensures
            profile == v1_profile(),
    {
        InterpretProfile {
            version: INTERPRET_PROFILE_VERSION,
            l1: Single { bits: DEFAULT_L1 },
            prune: Some(Single { bits: DEFAULT_PRUNE }),
            finetune_epochs: 20,
            compact: true,
        }
    }

    fn bare() -> (profile: InterpretProfile)
        ensures
            profile == bare_profile(),
    {
        InterpretProfile {
            version: INTERPRET_PROFILE_VERSION,
            l1: Single { bits: 0 },
            prune: None,
            finetune_epochs: 10,
            compact: false,
        }
    }

    pub fn validate(&self) -> (out: Result<(), InterpretError>)
        ensures
            match out {
                Ok(_) => self.fault() is None,
                Err(e) => self.fault() == Some(e),
            },
    {
        if self.version != INTERPRET_PROFILE_VERSION {
            return Err(InterpretError::Version { found: self.version });
        }
        let nought: Single = Single { bits: 0 };
        if !self.l1.is_finite() || self.l1.is_less(nought) {
            return Err(InterpretError::L1);
        }
        match self.prune {
            Some(p) => {
                if !(nought.is_at_most(p) && p.is_less(Single { bits: ONE })) {
                    return Err(InterpretError::Prune);
                }
            },
            None => {},
        }
        if self.finetune_epochs == 0 {
            return Err(InterpretError::NoFinetune);
        }
        Ok(())
    }

    /// The text of a report, given the printed penalty and threshold.
    pub open spec fn description(self, l1: Seq<char>, prune: Seq<char>) -> Seq<char> {
        let head = "v"@ + decimal(self.version as nat) + ": L1 "@ + l1 + ", "@;
        let middle = if self.prune is Some {
            head + "prune "@ + prune + ", fine-tune "@ + decimal(self.finetune_epochs as nat)
                + " эпох"@
        } else {
            head + "без прунинга"@
        };
        if self.compact {
            middle + ", структурное сжатие"@
        } else {
            middle
        }
    }

    /// Describes the profile by its real values. `l1` and `prune` are their
    /// printed forms.
    pub fn describe(&self, l1: &str, prune: &str) -> (text: String)
        ensures
            text@ == self.description(l1@, prune@),
    {
        let mut text: String = owned("v");
        text.append(decimal_text(self.version as u64).as_str());
        text.append(": L1 ");
        text.append(l1);
        text.append(", ");
        match self.prune {
            Some(_) => {
                text.append("prune ");
                text.append(prune);
                text.append(", fine-tune ");
                text.append(decimal_text(self.finetune_epochs as u64).as_str());
                text.append(" эпох");
            },
            None => {
                text.append("без прунинга");
            },
        }
        if self.compact {
            text.append(", структурное сжатие");
        }
        text
    }
}

/// What compaction did to a model.
#[derive(Clone, Copy, Debug, PartialEq, Eq)]
pub struct Compaction {
    pub nodes_before: usize,
    pub nodes_after: usize,
    pub params_before: usize,
    pub params_after: usize,
}

/// What the pipeline did to one model.
#[derive(Clone, Copy, Debug, PartialEq, Eq)]
pub struct InterpretReport {
    /// The pipeline was cut short.
    pub cancelled: bool,
    /// R² on the validation rows before pruning, after it and after the
    /// fine-tuning.
    pub r2_before: Option<Single>,
    pub r2_after_prune: Option<Single>,
    pub r2_after_finetune: Option<Single>,
    pub compaction: Option<Compaction>,
    /// How many edges are active, of how many.
    pub active_edges: (usize, usize),
}

/// The reports of a run: that on its development model and that on its final
/// one.
#[derive(Clone, Copy, Debug, PartialEq, Eq)]
pub struct InterpretReports {
    pub profile: Option<InterpretProfile>,
    pub development: Option<InterpretReport>,
    pub final_model: Option<InterpretReport>,
}

/// Explicit settings that override a profile.
#[derive(Clone, Copy, Debug, PartialEq, Eq, Structural)]
pub struct InterpretOverrides {
    pub l1: Option<Single>,
    pub prune: Option<Single>,
    /// Pruning is switched off, whatever the profile says.
    pub without_prune: bool,
    pub finetune_epochs: Option<usize>,
    pub compact: Option<bool>,
}

pub open spec fn no_overrides() -> InterpretOverrides {
    InterpretOverrides {
        l1: None,
        prune: None,
        without_prune: false,
        finetune_epochs: None,
        compact: None,
    }
}

impl Default for InterpretOverrides {
    fn default() -> (overrides: InterpretOverrides)
        ensures
            overrides == no_overrides(),
    {
        InterpretOverrides {
        l1: None,
        prune: None,
        without_prune: false,
        finetune_epochs: None,
        compact: None,
    }
    }
}

impl InterpretOverrides {
    pub fn is_empty(&self) -> (yes: bool)
        ensures
            yes == (*self == no_overrides()),
    {
        self.l1.is_none() && self.prune.is_none() && !self.without_prune
            && self.finetune_epochs.is_none() && self.compact.is_none()
    }

    /// Switches pruning on, at the threshold of the profile, or off. Off is
    /// recorded, and there is then nothing to fine-tune.
    pub fn switch_prune(&mut self, on: bool)
        ensures
            *final(self) == if on {
                InterpretOverrides {
                    prune: Some(Single { bits: DEFAULT_PRUNE }),
                    without_prune: false,
                    ..*old(self)
                }
            } else {
                InterpretOverrides {
                    prune: None,
                    without_prune: true,
                    finetune_epochs: None,
                    ..*old(self)
                }
            },
    {
        if on {
            self.prune = Some(Single { bits: DEFAULT_PRUNE });
            self.without_prune = false;
        } else {
            self.prune = None;
            self.without_prune = true;
            self.finetune_epochs = None;
        }
    }
}

/// The base with the explicit settings put in.
pub open spec fn overridden(base: InterpretProfile, o: InterpretOverrides) -> InterpretProfile {
    InterpretProfile {
        version: base.version,
        l1: match o.l1 {
            Some(v) => v,
            None => base.l1,
        },
        prune: if o.without_prune {
            None
        } else {
            match o.prune {
                Some(v) => Some(v),
                None => base.prune,
            }
        },
        finetune_epochs: match o.finetune_epochs {
            Some(v) => v,
            None => base.finetune_epochs,
        },
        compact: match o.compact {
            Some(v) => v,
            None => base.compact,
        },
    }
}

/// The pipeline that a command asks for: none if it asks for nothing.
pub open spec fn resolved(use_profile: bool, o: InterpretOverrides) -> Result<
    Option<InterpretProfile>,
    InterpretError,
> {
    if !use_profile && o == no_overrides() {
        Ok(None)
    } else {
        let p = overridden(
            if use_profile {
                v1_profile()
            } else {
                bare_profile()
            },
            o,
        );
        if o.finetune_epochs is Some && p.prune is None {
            Err(InterpretError::FinetuneWithoutPrune)
        } else {
            match p.fault() {
                Some(e) => Err(e),
                None => Ok(Some(p)),
            }
        }
    }
}

/// Makes up a pipeline from the profile and the explicit settings, which win.
pub fn resolve(use_profile: bool, overrides: &InterpretOverrides) -> (out: Result<
    Option<InterpretProfile>,
    InterpretError,
>)
    ensures
        out == resolved(use_profile, *overrides),
{
    if !use_profile && overrides.is_empty() {
        return Ok(None);
    }
    let mut profile: InterpretProfile = if use_profile {
        InterpretProfile::v1()
    } else {
        InterpretProfile::bare()
    };
    match overrides.l1 {
        Some(l1) => {
            profile.l1 = l1;
        },
        None => {},
    }
    match overrides.prune {
        Some(prune) => {
            profile.prune = Some(prune);
        },
        None => {},
    }
    if overrides.without_prune {
        profile.prune = None;
    }
    match overrides.finetune_epochs {
        Some(epochs) => {
            profile.finetune_epochs = epochs;
        },
        None => {},
    }
    match overrides.compact {
        Some(compact) => {
            profile.compact = compact;
        },
        None => {},
    }
    if overrides.finetune_epochs.is_some() && profile.prune.is_none() {
        return Err(InterpretError::FinetuneWithoutPrune);
    }
    match profile.validate() {
        Ok(_) => Ok(Some(profile)),
        Err(e) => Err(e),
    }
}

/// An explicit setting always reaches the pipeline, a setting that is left
/// out comes from the profile, and what is resolved passes its own checks.
pub proof fn law_explicit_settings_win(use_profile: bool, o: InterpretOverrides)
    ensures
        resolved(use_profile, o) matches Ok(Some(p)) ==> {
            &&& p.fault() is None
            &&& (o.l1 matches Some(v) ==> p.l1 == v)
            &&& (o.without_prune ==> p.prune is None)
            &&& (!o.without_prune && o.prune is Some ==> p.prune == o.prune)
            &&& (o.finetune_epochs matches Some(v) ==> p.finetune_epochs == v)
            &&& (o.compact matches Some(v) ==> p.compact == v)
            &&& (use_profile && o.l1 is None ==> p.l1 == v1_profile().l1)
            &&& (use_profile && o.prune is None && !o.without_prune ==> p.prune
                == v1_profile().prune)
            &&& (use_profile && o.finetune_epochs is None ==> p.finetune_epochs
                == v1_profile().finetune_epochs)
            &&& (use_profile && o.compact is None ==> p.compact == v1_profile().compact)
        },
        resolved(use_profile, o) == Ok::<Option<InterpretProfile>, InterpretError>(None)
            <==> !use_profile && o == no_overrides(),
        resolved(true, no_overrides()) == Ok::<Option<InterpretProfile>, InterpretError>(
            Some(v1_profile()),
        ),
        !use_profile && o.finetune_epochs is Some && o.prune is None ==> resolved(use_profile, o)
            is Err,
{
}

/// Which profiles are accepted: those of version 1 whose penalty is a finite
/// number from 0 on, whose threshold, if there is one, is from 0 up to but not
/// including 1, and which fine-tune for at least one epoch.
pub proof fn law_a_sound_profile_is_accepted(p: InterpretProfile)
    ensures
        p.fault() is None <==> {
            &&& p.version == 1
            &&& p.l1.finite() && (Single { bits: 0 }).at_most(p.l1)
            &&& p.prune matches Some(t) ==> (Single { bits: 0 }).at_most(t) && t.less(
                Single { bits: 0x3f80_0000 },
            )
            &&& p.finetune_epochs >= 1
        },
{
}

/// The documented pipeline: penalty 0.001, threshold 0.05, 20 epochs of
/// fine-tuning, and compaction. Without the profile there is no penalty, no
/// pruning and no compaction but what is asked for.
pub proof fn law_what_is_left_out_comes_from_the_base(use_profile: bool, o: InterpretOverrides)
    ensures
        resolved(use_profile, o) matches Ok(Some(p)) ==> {
            &&& p.version == 1
            &&& p.l1 == match o.l1 {
                Some(v) => v,
                None => Single {
                    bits: if use_profile {
                        0x3a83_126f
                    } else {
                        0
                    },
                },
            }
            &&& p.prune is None <==> o.without_prune || (o.prune is None && !use_profile)
            &&& p.prune matches Some(t) ==> t == match o.prune {
                Some(v) => v,
                None => Single { bits: 0x3d4c_cccd },
            }
            &&& p.finetune_epochs == match o.finetune_epochs {
                Some(n) => n,
                None => if use_profile {
                    20
                } else {
                    10
                },
            }
            &&& p.compact == match o.compact {
                Some(c) => c,
                None => use_profile,
            }
        },
        resolved(use_profile, o) == Err::<Option<InterpretProfile>, InterpretError>(
            InterpretError::FinetuneWithoutPrune,
        ) <==> o.finetune_epochs is Some && (o.without_prune || (o.prune is None && !use_profile)),
{
}

} // verus!
