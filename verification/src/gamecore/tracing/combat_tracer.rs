//! Combat tracing: a step-by-step record of keyword resolution.

use vstd::prelude::*;
use crate::gamecore::keywords::{Keywords, keyword_names_from};
use crate::gamecore::text::{
    dec, debug_name_list, debug_names, decimal, pad_left, pad_right, padded_left, padded_right, signed_dec,
    signed_decimal, str_eq,
};
use crate::gamecore::types::{PlayerId, Slot};

verus! {

/// Phase of combat resolution.
#[derive(Clone, Copy, Debug, PartialEq, Eq, Structural)]
pub enum CombatPhase {
    Setup,
    QuickCheck,
    QuickStrike,
    ShieldCheck,
    ShieldAbsorption,
    DamageCalculation,
    CounterAttack,
    LethalCheck,
    LethalTrigger,
    PiercingCheck,
    PiercingOverflow,
    LifestealCheck,
    LifestealHeal,
    RangedAttack,
    FaceAttack,
    Complete,
}

/// The label of a combat phase.
pub open spec fn phase_label(p: CombatPhase) -> Seq<char> {
    match p {
        CombatPhase::Setup => "SETUP"@,
        CombatPhase::QuickCheck => "QUICK_CHECK"@,
        CombatPhase::QuickStrike => "QUICK_STRIKE"@,
        CombatPhase::ShieldCheck => "SHIELD_CHECK"@,
        CombatPhase::ShieldAbsorption => "SHIELD_ABSORB"@,
        CombatPhase::DamageCalculation => "DAMAGE_CALC"@,
        CombatPhase::CounterAttack => "COUNTER"@,
        CombatPhase::LethalCheck => "LETHAL_CHECK"@,
        CombatPhase::LethalTrigger => "LETHAL_KILL"@,
        CombatPhase::PiercingCheck => "PIERCE_CHECK"@,
        CombatPhase::PiercingOverflow => "PIERCE_OVERFLOW"@,
        CombatPhase::LifestealCheck => "LIFESTEAL_CHECK"@,
        CombatPhase::LifestealHeal => "LIFESTEAL_HEAL"@,
        CombatPhase::RangedAttack => "RANGED"@,
        CombatPhase::FaceAttack => "FACE_ATTACK"@,
        CombatPhase::Complete => "COMPLETE"@,
    }
}

impl CombatPhase {
    /// The label of the phase (as displayed).
    pub fn to_string(&self) -> (r: String)
        ensures
            r@ == phase_label(*self),
    {
        let s = match self {
            CombatPhase::Setup => "SETUP",
            CombatPhase::QuickCheck => "QUICK_CHECK",
            CombatPhase::QuickStrike => "QUICK_STRIKE",
            CombatPhase::ShieldCheck => "SHIELD_CHECK",
            CombatPhase::ShieldAbsorption => "SHIELD_ABSORB",
            CombatPhase::DamageCalculation => "DAMAGE_CALC",
            CombatPhase::CounterAttack => "COUNTER",
            CombatPhase::LethalCheck => "LETHAL_CHECK",
            CombatPhase::LethalTrigger => "LETHAL_KILL",
            CombatPhase::PiercingCheck => "PIERCE_CHECK",
            CombatPhase::PiercingOverflow => "PIERCE_OVERFLOW",
            CombatPhase::LifestealCheck => "LIFESTEAL_CHECK",
            CombatPhase::LifestealHeal => "LIFESTEAL_HEAL",
            CombatPhase::RangedAttack => "RANGED",
            CombatPhase::FaceAttack => "FACE_ATTACK",
            CombatPhase::Complete => "COMPLETE",
        };
        String::from_str(s)
    }
}

/// A single step in combat resolution.
#[derive(Clone, Debug)]
pub struct CombatStep {
    pub phase: CombatPhase,
    pub description: String,
    pub attacker_keywords: Keywords,
    pub defender_keywords: Option<Keywords>,
    pub damage_dealt: u8,
    pub healing: u8,
    pub death: Option<String>,
}

/// A step of the given phase and description, with nothing else recorded.
pub open spec fn plain_step(s: CombatStep, phase: CombatPhase, description: Seq<char>) -> bool {
    &&& s.phase == phase
    &&& s.description@ == description
    &&& s.attacker_keywords == Keywords(0)
    &&& s.defender_keywords is None
    &&& s.damage_dealt == 0
    &&& s.healing == 0
    &&& s.death is None
}

impl CombatStep {
    /// A step with a phase and a description.
    pub fn new(phase: CombatPhase, description: String) -> (r: CombatStep)
        ensures
            plain_step(r, phase, description@),
    {
        CombatStep {
            phase,
            description,
            attacker_keywords: Keywords::none(),
            defender_keywords: None,
            damage_dealt: 0,
            healing: 0,
            death: None,
        }
    }

    /// Record the keywords of both sides.
    pub fn with_keywords(self, attacker: Keywords, defender: Option<Keywords>) -> (r: CombatStep)
        ensures
            r == (CombatStep { attacker_keywords: attacker, defender_keywords: defender, ..self }),
    {
        let mut s = self;
        s.attacker_keywords = attacker;
        s.defender_keywords = defender;
        s
    }

    /// Record the damage dealt.
    pub fn with_damage(self, damage: u8) -> (r: CombatStep)
        ensures
            r == (CombatStep { damage_dealt: damage, ..self }),
    {
        let mut s = self;
        s.damage_dealt = damage;
        s
    }

    /// Record the healing applied.
    pub fn with_healing(self, healing: u8) -> (r: CombatStep)
        ensures
            r == (CombatStep { healing, ..self }),
    {
        let mut s = self;
        s.healing = healing;
        s
    }

    /// Record who died.
    pub fn with_death(self, who: String) -> (r: CombatStep)
        ensures
            r.death matches Some(w) && w@ == who@,
            r == (CombatStep { death: r.death, ..self }),
    {
        let mut s = self;
        s.death = Some(who);
        s
    }
}

/// The record of one combat.
#[derive(Clone, Debug)]
pub struct CombatTrace {
    pub attacker_owner: PlayerId,
    pub attacker_slot: Slot,
    pub attacker_attack: i8,
    pub attacker_health: i8,
    pub attacker_keywords: Keywords,
    pub defender_owner: Option<PlayerId>,
    pub defender_slot: Slot,
    pub defender_attack: Option<i8>,
    pub defender_health: Option<i8>,
    pub defender_keywords: Option<Keywords>,
    pub is_face_attack: bool,
    pub steps: Vec<CombatStep>,
    pub attacker_died: bool,
    pub defender_died: bool,
    pub face_damage: u8,
    pub attacker_healed: u8,
}

/// "P<n> Slot <s> (<attack>/<health> <keywords>)" for one side.
pub open spec fn side_text(owner: PlayerId, slot: Slot, attack: i8, health: i8, kw: Keywords) -> Seq<char> {
    "P"@ + dec((owner.0 + 1) as nat) + " Slot "@ + dec(slot.0 as nat) + " ("@ + signed_dec(attack as int) + "/"@
        + signed_dec(health as int) + " "@ + debug_names(keyword_names_from(kw.0, 0)) + ")"@
}

/// The text of one side.
fn side_string(owner: PlayerId, slot: Slot, attack: i8, health: i8, kw: Keywords) -> (r: String)
    requires
        owner.0 < 255,
    ensures
        r@ == side_text(owner, slot, attack, health, kw),
{
    let mut s = String::from_str("P");
    s.append(decimal((owner.0 + 1) as u64).as_str());
    s.append(" Slot ");
    s.append(decimal(slot.0 as u64).as_str());
    s.append(" (");
    s.append(signed_decimal(attack as i64).as_str());
    s.append("/");
    s.append(signed_decimal(health as i64).as_str());
    s.append(" ");
    s.append(debug_name_list(&kw.to_names()).as_str());
    s.append(")");
    s
}

/// A trace with no steps yet and no results.
pub open spec fn fresh_trace(t: CombatTrace) -> bool {
    &&& !t.attacker_died
    &&& !t.defender_died
    &&& t.face_damage == 0
    &&& t.attacker_healed == 0
}

impl CombatTrace {
    /// Start the trace of a fight between two creatures.
    pub fn new_creature_combat(
        attacker_owner: PlayerId,
        attacker_slot: Slot,
        attacker_attack: i8,
        attacker_health: i8,
        attacker_keywords: Keywords,
        defender_owner: PlayerId,
        defender_slot: Slot,
        defender_attack: i8,
        defender_health: i8,
        defender_keywords: Keywords,
    ) -> (r: CombatTrace)
        requires
            attacker_owner.0 < 255,
            defender_owner.0 < 255,
        ensures
            fresh_trace(r),
            !r.is_face_attack,
            r.attacker_owner == attacker_owner && r.attacker_slot == attacker_slot,
            r.attacker_attack == attacker_attack && r.attacker_health == attacker_health,
            r.attacker_keywords == attacker_keywords,
            r.defender_owner == Some(defender_owner) && r.defender_slot == defender_slot,
            r.defender_attack == Some(defender_attack) && r.defender_health == Some(defender_health),
            r.defender_keywords == Some(defender_keywords),
            r.steps@.len() == 1,
            r.steps@[0].phase == CombatPhase::Setup,
            r.steps@[0].description@ == "Combat: "@
                + side_text(attacker_owner, attacker_slot, attacker_attack, attacker_health, attacker_keywords) + " vs "@
                + side_text(defender_owner, defender_slot, defender_attack, defender_health, defender_keywords),
            r.steps@[0].attacker_keywords == attacker_keywords,
            r.steps@[0].defender_keywords == Some(defender_keywords),
    {
        let mut desc = String::from_str("Combat: ");
        desc.append(side_string(attacker_owner, attacker_slot, attacker_attack, attacker_health, attacker_keywords).as_str());
        desc.append(" vs ");
        desc.append(side_string(defender_owner, defender_slot, defender_attack, defender_health, defender_keywords).as_str());
        let step = CombatStep::new(CombatPhase::Setup, desc).with_keywords(attacker_keywords, Some(defender_keywords));
        let mut steps = Vec::new();
        steps.push(step);
        CombatTrace {
            attacker_owner,
            attacker_slot,
            attacker_attack,
            attacker_health,
            attacker_keywords,
            defender_owner: Some(defender_owner),
            defender_slot,
            defender_attack: Some(defender_attack),
            defender_health: Some(defender_health),
            defender_keywords: Some(defender_keywords),
            is_face_attack: false,
            steps,
            attacker_died: false,
            defender_died: false,
            face_damage: 0,
            attacker_healed: 0,
        }
    }

    /// Start the trace of an attack on an empty slot (the enemy's face).
    pub fn new_face_attack(
        attacker_owner: PlayerId,
        attacker_slot: Slot,
        attacker_attack: i8,
        attacker_health: i8,
        attacker_keywords: Keywords,
        defender_slot: Slot,
    ) -> (r: CombatTrace)
        requires
            attacker_owner.0 < 255,
        ensures
            fresh_trace(r),
            r.is_face_attack,
            r.attacker_owner == attacker_owner && r.attacker_slot == attacker_slot,
            r.attacker_attack == attacker_attack && r.attacker_health == attacker_health,
            r.attacker_keywords == attacker_keywords,
            r.defender_owner is None && r.defender_slot == defender_slot,
            r.defender_attack is None && r.defender_health is None && r.defender_keywords is None,
            r.steps@.len() == 1,
            r.steps@[0].phase == CombatPhase::Setup,
            r.steps@[0].description@ == "Face Attack: "@
                + side_text(attacker_owner, attacker_slot, attacker_attack, attacker_health, attacker_keywords)
                + " -> enemy face"@,
            r.steps@[0].attacker_keywords == attacker_keywords,
            r.steps@[0].defender_keywords is None,
    {
        let mut desc = String::from_str("Face Attack: ");
        desc.append(side_string(attacker_owner, attacker_slot, attacker_attack, attacker_health, attacker_keywords).as_str());
        desc.append(" -> enemy face");
        let step = CombatStep::new(CombatPhase::Setup, desc).with_keywords(attacker_keywords, None);
        let mut steps = Vec::new();
        steps.push(step);
        CombatTrace {
            attacker_owner,
            attacker_slot,
            attacker_attack,
            attacker_health,
            attacker_keywords,
            defender_owner: None,
            defender_slot,
            defender_attack: None,
            defender_health: None,
            defender_keywords: None,
            is_face_attack: true,
            steps,
            attacker_died: false,
            defender_died: false,
            face_damage: 0,
            attacker_healed: 0,
        }
    }

    /// Append a step.
    pub fn add_step(&mut self, step: CombatStep)
        ensures
            final(self).steps@ == old(self).steps@.push(step),
            *final(self) == (CombatTrace { steps: final(self).steps, ..*old(self) }),
    {
        self.steps.push(step);
    }

    /// Record the Quick check.
    pub fn log_quick_check(&mut self, attacker_has_quick: bool, defender_has_quick: bool)
        ensures
            final(self).steps@.len() == old(self).steps@.len() + 1,
            final(self).steps@.drop_last() == old(self).steps@,
            plain_step(final(self).steps@.last(), CombatPhase::QuickCheck, match (attacker_has_quick, defender_has_quick) {
                (true, true) => "Both have Quick - simultaneous strikes"@,
                (true, false) => "Attacker has Quick - strikes first"@,
                (false, true) => "Defender has Quick - counter-attacks first"@,
                (false, false) => "Neither has Quick - normal combat"@,
            }),
            *final(self) == (CombatTrace { steps: final(self).steps, ..*old(self) }),
    {
        let desc = if attacker_has_quick && defender_has_quick {
            "Both have Quick - simultaneous strikes"
        } else if attacker_has_quick {
            "Attacker has Quick - strikes first"
        } else if defender_has_quick {
            "Defender has Quick - counter-attacks first"
        } else {
            "Neither has Quick - normal combat"
        };
        self.add_step(CombatStep::new(CombatPhase::QuickCheck, String::from_str(desc)));
        proof { assert(self.steps@.drop_last() =~= old(self).steps@); }
    }

    /// Record a Quick strike.
    pub fn log_quick_strike(&mut self, striker: &str, damage: u8, target_died: bool)
        ensures
            final(self).steps@.len() == old(self).steps@.len() + 1,
            final(self).steps@.drop_last() == old(self).steps@,
            final(self).steps@.last().phase == CombatPhase::QuickStrike,
            final(self).steps@.last().description@ == striker@ + " Quick strike deals "@ + dec(damage as nat) + " damage"@,
            final(self).steps@.last().damage_dealt == damage,
            target_died ==> (final(self).steps@.last().death matches Some(w)
                && w@ == (if striker@ == "Attacker"@ { "Defender"@ } else { "Attacker"@ })),
            !target_died ==> final(self).steps@.last().death is None,
            *final(self) == (CombatTrace { steps: final(self).steps, ..*old(self) }),
    {
        let mut desc = String::from_str(striker);
        desc.append(" Quick strike deals ");
        desc.append(decimal(damage as u64).as_str());
        desc.append(" damage");
        let mut step = CombatStep::new(CombatPhase::QuickStrike, desc).with_damage(damage);
        if target_died {
            let who = if str_eq(striker, "Attacker") { "Defender" } else { "Attacker" };
            step = step.with_death(String::from_str(who));
        }
        self.add_step(step);
        proof { assert(self.steps@.drop_last() =~= old(self).steps@); }
    }

    /// Record that a side has Shield (nothing is recorded without it).
    pub fn log_shield_check(&mut self, who: &str, has_shield: bool)
        ensures
            !has_shield ==> *final(self) == *old(self),
            has_shield ==> final(self).steps@.len() == old(self).steps@.len() + 1
                && final(self).steps@.drop_last() == old(self).steps@
                && plain_step(final(self).steps@.last(), CombatPhase::ShieldCheck,
                    who@ + " has Shield - will absorb first hit"@),
            *final(self) == (CombatTrace { steps: final(self).steps, ..*old(self) }),
    {
        if has_shield {
            let mut desc = String::from_str(who);
            desc.append(" has Shield - will absorb first hit");
            self.add_step(CombatStep::new(CombatPhase::ShieldCheck, desc));
            proof { assert(self.steps@.drop_last() =~= old(self).steps@); }
        }
    }

    /// Record a Shield absorbing a hit.
    pub fn log_shield_absorption(&mut self, who: &str, damage_blocked: u8)
        ensures
            final(self).steps@.len() == old(self).steps@.len() + 1,
            final(self).steps@.drop_last() == old(self).steps@,
            plain_step(final(self).steps@.last(), CombatPhase::ShieldAbsorption,
                who@ + "'s Shield absorbs "@ + dec(damage_blocked as nat) + " damage"@),
            *final(self) == (CombatTrace { steps: final(self).steps, ..*old(self) }),
    {
        let mut desc = String::from_str(who);
        desc.append("'s Shield absorbs ");
        desc.append(decimal(damage_blocked as u64).as_str());
        desc.append(" damage");
        self.add_step(CombatStep::new(CombatPhase::ShieldAbsorption, desc));
        proof { assert(self.steps@.drop_last() =~= old(self).steps@); }
    }

    /// Record the damage both sides dealt.
    pub fn log_damage(&mut self, attacker_damage: u8, defender_damage: u8)
        ensures
            final(self).steps@.len() == old(self).steps@.len() + 1,
            final(self).steps@.drop_last() == old(self).steps@,
            final(self).steps@.last().phase == CombatPhase::DamageCalculation,
            final(self).steps@.last().description@ == "Damage: Attacker deals "@ + dec(attacker_damage as nat)
                + ", Defender deals "@ + dec(defender_damage as nat),
            final(self).steps@.last().damage_dealt == attacker_damage,
            *final(self) == (CombatTrace { steps: final(self).steps, ..*old(self) }),
    {
        let mut desc = String::from_str("Damage: Attacker deals ");
        desc.append(decimal(attacker_damage as u64).as_str());
        desc.append(", Defender deals ");
        desc.append(decimal(defender_damage as u64).as_str());
        self.add_step(CombatStep::new(CombatPhase::DamageCalculation, desc).with_damage(attacker_damage));
        proof { assert(self.steps@.drop_last() =~= old(self).steps@); }
    }

    /// Record a counter-attack.
    pub fn log_counter_attack(&mut self, damage: u8, attacker_died: bool)
        ensures
            final(self).steps@.len() == old(self).steps@.len() + 1,
            final(self).steps@.drop_last() == old(self).steps@,
            final(self).steps@.last().phase == CombatPhase::CounterAttack,
            final(self).steps@.last().description@ == "Counter-attack deals "@ + dec(damage as nat) + " damage"@,
            final(self).steps@.last().damage_dealt == damage,
            attacker_died ==> (final(self).steps@.last().death matches Some(w) && w@ == "Attacker"@),
            !attacker_died ==> final(self).steps@.last().death is None,
            *final(self) == (CombatTrace { steps: final(self).steps, ..*old(self) }),
    {
        let mut desc = String::from_str("Counter-attack deals ");
        desc.append(decimal(damage as u64).as_str());
        desc.append(" damage");
        let mut step = CombatStep::new(CombatPhase::CounterAttack, desc).with_damage(damage);
        if attacker_died {
            step = step.with_death(String::from_str("Attacker"));
        }
        self.add_step(step);
        proof { assert(self.steps@.drop_last() =~= old(self).steps@); }
    }

    /// Record a Lethal kill.
    pub fn log_lethal(&mut self, who: &str, damage_was: u8)
        ensures
            final(self).steps@.len() == old(self).steps@.len() + 1,
            final(self).steps@.drop_last() == old(self).steps@,
            final(self).steps@.last().phase == CombatPhase::LethalTrigger,
            final(self).steps@.last().description@ == who@ + " Lethal triggers with "@ + dec(damage_was as nat)
                + " damage - instant kill"@,
            final(self).steps@.last().death matches Some(w)
                && w@ == (if who@ == "Attacker"@ { "Defender"@ } else { "Attacker"@ }),
            *final(self) == (CombatTrace { steps: final(self).steps, ..*old(self) }),
    {
        let mut desc = String::from_str(who);
        desc.append(" Lethal triggers with ");
        desc.append(decimal(damage_was as u64).as_str());
        desc.append(" damage - instant kill");
        let victim = if str_eq(who, "Attacker") { "Defender" } else { "Attacker" };
        self.add_step(CombatStep::new(CombatPhase::LethalTrigger, desc).with_death(String::from_str(victim)));
        proof { assert(self.steps@.drop_last() =~= old(self).steps@); }
    }

    /// Record Piercing overflow damage.
    pub fn log_piercing(&mut self, overflow_damage: u8)
        ensures
            final(self).steps@.len() == old(self).steps@.len() + 1,
            final(self).steps@.drop_last() == old(self).steps@,
            final(self).steps@.last().phase == CombatPhase::PiercingOverflow,
            final(self).steps@.last().description@ == "Piercing deals "@ + dec(overflow_damage as nat)
                + " overflow damage to face"@,
            final(self).steps@.last().damage_dealt == overflow_damage,
            *final(self) == (CombatTrace { steps: final(self).steps, ..*old(self) }),
    {
        let mut desc = String::from_str("Piercing deals ");
        desc.append(decimal(overflow_damage as u64).as_str());
        desc.append(" overflow damage to face");
        self.add_step(CombatStep::new(CombatPhase::PiercingOverflow, desc).with_damage(overflow_damage));
        proof { assert(self.steps@.drop_last() =~= old(self).steps@); }
    }

    /// Record Lifesteal healing (also kept as the trace's healing result).
    pub fn log_lifesteal(&mut self, healed: u8)
        ensures
            final(self).steps@.len() == old(self).steps@.len() + 1,
            final(self).steps@.drop_last() == old(self).steps@,
            final(self).steps@.last().phase == CombatPhase::LifestealHeal,
            final(self).steps@.last().description@ == "Lifesteal heals attacker for "@ + dec(healed as nat),
            final(self).steps@.last().healing == healed,
            *final(self) == (CombatTrace { steps: final(self).steps, attacker_healed: healed, ..*old(self) }),
    {
        let mut desc = String::from_str("Lifesteal heals attacker for ");
        desc.append(decimal(healed as u64).as_str());
        self.add_step(CombatStep::new(CombatPhase::LifestealHeal, desc).with_healing(healed));
        proof { assert(self.steps@.drop_last() =~= old(self).steps@); }
        self.attacker_healed = healed;
    }

    /// Record a Ranged attack (no counter-attack).
    pub fn log_ranged(&mut self)
        ensures
            final(self).steps@.len() == old(self).steps@.len() + 1,
            final(self).steps@.drop_last() == old(self).steps@,
            plain_step(final(self).steps@.last(), CombatPhase::RangedAttack, "Ranged attack - no counter-attack"@),
            *final(self) == (CombatTrace { steps: final(self).steps, ..*old(self) }),
    {
        self.add_step(CombatStep::new(CombatPhase::RangedAttack, String::from_str("Ranged attack - no counter-attack")));
        proof { assert(self.steps@.drop_last() =~= old(self).steps@); }
    }

    /// Record face damage (also kept as the trace's face damage result).
    pub fn log_face_damage(&mut self, damage: u8)
        ensures
            final(self).steps@.len() == old(self).steps@.len() + 1,
            final(self).steps@.drop_last() == old(self).steps@,
            final(self).steps@.last().phase == CombatPhase::FaceAttack,
            final(self).steps@.last().description@ == "Face attack deals "@ + dec(damage as nat) + " damage to enemy player"@,
            final(self).steps@.last().damage_dealt == damage,
            *final(self) == (CombatTrace { steps: final(self).steps, face_damage: damage, ..*old(self) }),
    {
        let mut desc = String::from_str("Face attack deals ");
        desc.append(decimal(damage as u64).as_str());
        desc.append(" damage to enemy player");
        self.add_step(CombatStep::new(CombatPhase::FaceAttack, desc).with_damage(damage));
        proof { assert(self.steps@.drop_last() =~= old(self).steps@); }
        self.face_damage = damage;
    }

    /// Record the outcome.
    pub fn log_complete(&mut self, attacker_died: bool, defender_died: bool)
        ensures
            final(self).steps@.len() == old(self).steps@.len() + 1,
            final(self).steps@.drop_last() == old(self).steps@,
            plain_step(final(self).steps@.last(), CombatPhase::Complete, "Combat complete: "@ + match (attacker_died, defender_died) {
                (false, false) => "Both survive"@,
                (true, false) => "Attacker died"@,
                (false, true) => "Defender died"@,
                (true, true) => "Both died"@,
            }),
            *final(self) == (CombatTrace { steps: final(self).steps, attacker_died, defender_died, ..*old(self) }),
    {
        self.attacker_died = attacker_died;
        self.defender_died = defender_died;
        let outcome = if !attacker_died && !defender_died {
            "Both survive"
        } else if attacker_died && !defender_died {
            "Attacker died"
        } else if !attacker_died {
            "Defender died"
        } else {
            "Both died"
        };
        let mut desc = String::from_str("Combat complete: ");
        desc.append(outcome);
        let ghost before = self.steps@;
        self.add_step(CombatStep::new(CombatPhase::Complete, desc));
        proof { assert(self.steps@.drop_last() =~= before); }
    }

    /// The trace as text.
    pub fn format(&self) -> (r: String)
        ensures
            r@ == trace_text(*self),
    {
        let mut out = String::from_str(TRACE_TOP);
        out.append(TRACE_TITLE);
        out.append(TRACE_RULE);
        let mut i: usize = 0;
        while i < self.steps.len()
            invariant
                i <= self.steps@.len(),
                out@ == TRACE_TOP@ + TRACE_TITLE@ + TRACE_RULE@ + steps_text(self.steps@, i as nat),
            decreases self.steps@.len() - i,
        {
            let line = format_step(&self.steps[i], i);
            out.append(line.as_str());
            proof {
                assert(steps_text(self.steps@, (i + 1) as nat) == steps_text(self.steps@, i as nat) + step_text(self.steps@[i as int], i as nat));
            }
            i = i + 1;
        }
        out.append(TRACE_RULE);
        out.append("║ Result: Attacker ");
        out.append(if self.attacker_died { "DEAD" } else { "alive" });
        out.append(" | Defender ");
        out.append(if self.defender_died { "DEAD" } else { "alive" });
        out.append(" | Face: ");
        out.append(decimal(self.face_damage as u64).as_str());
        out.append(" | Healed: ");
        out.append(decimal(self.attacker_healed as u64).as_str());
        out.append("\n");
        out.append(TRACE_BOTTOM);
        out
    }
}

/// Top border of a combat trace.
pub const TRACE_TOP: &'static str = "╔══════════════════════════════════════════════════════════════╗\n";
/// Title line of a combat trace.
pub const TRACE_TITLE: &'static str = "║                     COMBAT TRACE                              ║\n";
/// Separator line of a combat trace.
pub const TRACE_RULE: &'static str = "╠══════════════════════════════════════════════════════════════╣\n";
/// Bottom border of a combat trace.
pub const TRACE_BOTTOM: &'static str = "╚══════════════════════════════════════════════════════════════╝\n";

/// The optional detail lines of a step.
pub open spec fn step_details(s: CombatStep) -> Seq<char> {
    (if s.damage_dealt > 0 { "║     └─ Damage: "@ + dec(s.damage_dealt as nat) + "\n"@ } else { Seq::empty() })
        + (if s.healing > 0 { "║     └─ Healing: "@ + dec(s.healing as nat) + "\n"@ } else { Seq::empty() })
        + (match s.death { Some(w) => "║     └─ Death: "@ + w@ + "\n"@, None => Seq::empty() })
}

/// The main line of step number `i` (counting from 0).
pub open spec fn step_head(s: CombatStep, i: nat) -> Seq<char> {
    "║ "@ + pad_left(dec(i + 1), 2, " "@) + ". ["@ + pad_right(phase_label(s.phase), 14) + "] "@ + s.description@ + "\n"@
}

/// The detail lines of a step.
fn format_step_details(step: &CombatStep) -> (r: String)
    ensures
        r@ == step_details(*step),
{
    let mut a = String::new();
    if step.damage_dealt > 0 {
        a.append("║     └─ Damage: ");
        a.append(decimal(step.damage_dealt as u64).as_str());
        a.append("\n");
    }
    let mut b = String::new();
    if step.healing > 0 {
        b.append("║     └─ Healing: ");
        b.append(decimal(step.healing as u64).as_str());
        b.append("\n");
    }
    let mut c = String::new();
    if let Some(who) = &step.death {
        c.append("║     └─ Death: ");
        c.append(who.as_str());
        c.append("\n");
    }
    a.append(b.as_str());
    a.append(c.as_str());
    a
}

/// The lines of step number `i` (counting from 0).
fn format_step(step: &CombatStep, i: usize) -> (r: String)
    requires
        i < usize::MAX,
    ensures
        r@ == step_text(*step, i as nat),
{
    let mut out = String::from_str("║ ");
    out.append(padded_left(decimal((i + 1) as u64), 2, " ").as_str());
    out.append(". [");
    out.append(padded_right(step.phase.to_string(), 14).as_str());
    out.append("] ");
    out.append(step.description.as_str());
    out.append("\n");
    proof { assert(out@ == step_head(*step, i as nat)); }
    out.append(format_step_details(step).as_str());
    out
}

/// The lines of step number `i` (counting from 0).
pub open spec fn step_text(s: CombatStep, i: nat) -> Seq<char> {
    step_head(s, i) + step_details(s)
}

/// The lines of the first `n` steps.
pub open spec fn steps_text(steps: Seq<CombatStep>, n: nat) -> Seq<char>
    decreases n,
{
    if n == 0 { Seq::empty() } else { steps_text(steps, (n - 1) as nat) + step_text(steps[n - 1], (n - 1) as nat) }
}

/// A combat trace as text.
pub open spec fn trace_text(t: CombatTrace) -> Seq<char> {
    TRACE_TOP@ + TRACE_TITLE@ + TRACE_RULE@ + steps_text(t.steps@, t.steps@.len()) + TRACE_RULE@
        + "║ Result: Attacker "@ + (if t.attacker_died { "DEAD"@ } else { "alive"@ })
        + " | Defender "@ + (if t.defender_died { "DEAD"@ } else { "alive"@ })
        + " | Face: "@ + dec(t.face_damage as nat) + " | Healed: "@ + dec(t.attacker_healed as nat) + "\n"@
        + TRACE_BOTTOM@
}

/// Collects the combat traces of a game.
#[derive(Clone, Debug)]
pub struct CombatTracer {
    pub traces: Vec<CombatTrace>,
    pub enabled: bool,
}

impl CombatTracer {
    /// A tracer with no traces.
    pub fn new(enabled: bool) -> (r: CombatTracer)
        ensures
            r.enabled == enabled,
            r.traces@.len() == 0,
    {
        CombatTracer { traces: Vec::new(), enabled }
    }

    /// Whether tracing is on.
    pub fn is_enabled(&self) -> (r: bool)
        ensures
            r == self.enabled,
    {
        self.enabled
    }

    /// Keep a finished trace (only when tracing is on).
    pub fn add_trace(&mut self, trace: CombatTrace)
        ensures
            final(self).enabled == old(self).enabled,
            final(self).traces@ == (if old(self).enabled { old(self).traces@.push(trace) } else { old(self).traces@ }),
    {
        if self.enabled {
            self.traces.push(trace);
        }
    }

    /// The traces kept so far.
    pub fn traces(&self) -> (r: &[CombatTrace])
        ensures
            r@ == self.traces@,
    {
        self.traces.as_slice()
    }

    /// Forget every trace.
    pub fn clear(&mut self)
        ensures
            final(self).enabled == old(self).enabled,
            final(self).traces@.len() == 0,
    {
        self.traces.clear();
    }

    /// Every trace as text, separated by blank lines.
    pub fn format_all(&self) -> (r: String)
        ensures
            r@ == traces_text(self.traces@, self.traces@.len()),
    {
        let mut out = String::new();
        let mut i: usize = 0;
        while i < self.traces.len()
            invariant
                i <= self.traces@.len(),
                out@ == traces_text(self.traces@, i as nat),
            decreases self.traces@.len() - i,
        {
            if i > 0 {
                out.append("\n");
            }
            out.append(self.traces[i].format().as_str());
            i = i + 1;
        }
        out
    }
}

/// The first `n` traces as text, separated by line breaks.
pub open spec fn traces_text(ts: Seq<CombatTrace>, n: nat) -> Seq<char>
    decreases n,
{
    if n == 0 {
        Seq::empty()
    } else if n == 1 {
        trace_text(ts[0])
    } else {
        traces_text(ts, (n - 1) as nat) + "\n"@ + trace_text(ts[n - 1])
    }
}

} // verus!
