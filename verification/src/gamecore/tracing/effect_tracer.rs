//! Effect tracing: a record of effect queue processing.

use vstd::prelude::*;
use crate::gamecore::effects::{Effect, EffectSource, EffectTarget};
use crate::gamecore::text::{dec, decimal, hex, hexadecimal, pad_left, pad_right, padded_left, padded_right,
    plus_signed_dec, plus_signed_decimal, repeat, repeated};
use crate::gamecore::types::PlayerId;

verus! {

/// Kind of effect event.
#[derive(Clone, Copy, Debug, PartialEq, Eq, Structural)]
pub enum EffectEventType {
    Queued,
    ExecutionStart,
    ExecutionComplete,
    DeathDetected,
    DeathTrigger,
    QueueStart,
    QueueComplete,
}

/// The label of an event kind.
pub open spec fn event_label(t: EffectEventType) -> Seq<char> {
    match t {
        EffectEventType::Queued => "QUEUED"@,
        EffectEventType::ExecutionStart => "EXEC_START"@,
        EffectEventType::ExecutionComplete => "EXEC_DONE"@,
        EffectEventType::DeathDetected => "DEATH"@,
        EffectEventType::DeathTrigger => "DEATH_TRIGGER"@,
        EffectEventType::QueueStart => "QUEUE_START"@,
        EffectEventType::QueueComplete => "QUEUE_DONE"@,
    }
}

impl EffectEventType {
    /// The label of the event kind (as displayed).
    pub fn to_string(&self) -> (r: String)
        ensures
            r@ == event_label(*self),
    {
        let s = match self {
            EffectEventType::Queued => "QUEUED",
            EffectEventType::ExecutionStart => "EXEC_START",
            EffectEventType::ExecutionComplete => "EXEC_DONE",
            EffectEventType::DeathDetected => "DEATH",
            EffectEventType::DeathTrigger => "DEATH_TRIGGER",
            EffectEventType::QueueStart => "QUEUE_START",
            EffectEventType::QueueComplete => "QUEUE_DONE",
        };
        String::from_str(s)
    }
}

/// One event of effect processing.
#[derive(Clone, Debug)]
pub struct EffectEvent {
    pub event_type: EffectEventType,
    pub description: String,
    pub queue_depth: usize,
    pub cascade_depth: usize,
    pub state_changes: Vec<String>,
}

impl EffectEvent {
    /// An event with a kind and description, no depths and no changes.
    pub fn new(event_type: EffectEventType, description: String) -> (r: EffectEvent)
        ensures
            r.event_type == event_type,
            r.description@ == description@,
            r.queue_depth == 0,
            r.cascade_depth == 0,
            r.state_changes@.len() == 0,
    {
        EffectEvent { event_type, description, queue_depth: 0, cascade_depth: 0, state_changes: Vec::new() }
    }

    /// Record the queue depth.
    pub fn with_queue_depth(self, depth: usize) -> (r: EffectEvent)
        ensures
            r == (EffectEvent { queue_depth: depth, ..self }),
    {
        let mut e = self;
        e.queue_depth = depth;
        e
    }

    /// Record the cascade depth.
    pub fn with_cascade_depth(self, depth: usize) -> (r: EffectEvent)
        ensures
            r == (EffectEvent { cascade_depth: depth, ..self }),
    {
        let mut e = self;
        e.cascade_depth = depth;
        e
    }

    /// Add a state change.
    pub fn with_state_change(self, change: String) -> (r: EffectEvent)
        ensures
            r.state_changes@ == self.state_changes@.push(change),
            r == (EffectEvent { state_changes: r.state_changes, ..self }),
    {
        let mut e = self;
        e.state_changes.push(change);
        e
    }
}

/// "P<n>" for a player.
pub open spec fn player_text(p: PlayerId) -> Seq<char> {
    "P"@ + dec((p.0 + 1) as nat)
}

/// An effect target as text.
pub open spec fn target_text(t: EffectTarget) -> Seq<char> {
    match t {
        EffectTarget::Creature { owner, slot } => player_text(owner) + "_Slot"@ + dec(slot.0 as nat),
        EffectTarget::Player(p) => player_text(p),
        EffectTarget::AllAllyCreatures(p) => "AllP"@ + dec((p.0 + 1) as nat) + "Creatures"@,
        EffectTarget::AllEnemyCreatures(p) => "AllEnemyOf_"@ + player_text(p),
        EffectTarget::AllCreatures => "AllCreatures"@,
        EffectTarget::TriggerSource => "TriggerSource"@,
        EffectTarget::NoTarget => "None"@,
    }
}

/// "P<n>" for a player.
fn player_string(p: PlayerId) -> (r: String)
    requires
        p.0 < 255,
    ensures
        r@ == player_text(p),
{
    let mut s = String::from_str("P");
    s.append(decimal((p.0 + 1) as u64).as_str());
    s
}

/// Whether every player id in a target can be printed.
pub open spec fn target_printable(t: EffectTarget) -> bool {
    match t {
        EffectTarget::Creature { owner, .. } => owner.0 < 255,
        EffectTarget::Player(p) | EffectTarget::AllAllyCreatures(p) | EffectTarget::AllEnemyCreatures(p) => p.0 < 255,
        _ => true,
    }
}

/// An effect target as text.
pub fn format_target(t: &EffectTarget) -> (r: String)
    requires
        target_printable(*t),
    ensures
        r@ == target_text(*t),
{
    match t {
        EffectTarget::Creature { owner, slot } => {
            let mut s = player_string(*owner);
            s.append("_Slot");
            s.append(decimal(slot.0 as u64).as_str());
            s
        }
        EffectTarget::Player(p) => player_string(*p),
        EffectTarget::AllAllyCreatures(p) => {
            let mut s = String::from_str("AllP");
            s.append(decimal((p.0 + 1) as u64).as_str());
            s.append("Creatures");
            s
        }
        EffectTarget::AllEnemyCreatures(p) => {
            let mut s = String::from_str("AllEnemyOf_");
            s.append(player_string(*p).as_str());
            s
        }
        EffectTarget::AllCreatures => String::from_str("AllCreatures"),
        EffectTarget::TriggerSource => String::from_str("TriggerSource"),
        EffectTarget::NoTarget => String::from_str("None"),
    }
}

/// An optional slot as text ("auto" when none).
pub open spec fn slot_choice_text(s: Option<crate::gamecore::types::Slot>) -> Seq<char> {
    match s {
        Some(x) => dec(x.0 as nat),
        None => "auto"@,
    }
}

/// An effect as text.
pub open spec fn effect_text(e: Effect) -> Seq<char> {
    match e {
        Effect::Damage { target, amount, .. } => "Damage("@ + target_text(target) + ", "@ + dec(amount as nat) + ")"@,
        Effect::Heal { target, amount, .. } => "Heal("@ + target_text(target) + ", "@ + dec(amount as nat) + ")"@,
        Effect::BuffStats { target, attack, health, .. } => "BuffStats("@ + target_text(target) + ", "@
            + plus_signed_dec(attack as int) + "/"@ + plus_signed_dec(health as int) + ")"@,
        Effect::SetStats { target, attack, health } => "SetStats("@ + target_text(target) + ", "@
            + dec(attack as nat) + "/"@ + dec(health as nat) + ")"@,
        Effect::GrantKeyword { target, keyword, .. } => "GrantKeyword("@ + target_text(target) + ", 0x"@
            + pad_left(hex(keyword as nat), 2, "0"@) + ")"@,
        Effect::RemoveKeyword { target, keyword, .. } => "RemoveKeyword("@ + target_text(target) + ", 0x"@
            + pad_left(hex(keyword as nat), 2, "0"@) + ")"@,
        Effect::Destroy { target, .. } => "Destroy("@ + target_text(target) + ")"@,
        Effect::Silence { target, .. } => "Silence("@ + target_text(target) + ")"@,
        Effect::Draw { player, count } => "Draw("@ + player_text(player) + ", "@ + dec(count as nat) + ")"@,
        Effect::GainEssence { player, amount } => "GainEssence("@ + player_text(player) + ", "@ + dec(amount as nat) + ")"@,
        Effect::RefreshCreature { target } => "Refresh("@ + target_text(target) + ")"@,
        Effect::Summon { owner, card_id, slot } => "Summon("@ + player_text(owner) + ", card="@ + dec(card_id.0 as nat)
            + ", slot="@ + slot_choice_text(slot) + ")"@,
        Effect::Bounce { target, .. } => "Bounce("@ + target_text(target) + ")"@,
        Effect::SummonToken { owner, token, slot } => "SummonToken("@ + player_text(owner) + ", '"@ + token.name@
            + "' "@ + dec(token.attack as nat) + "/"@ + dec(token.health as nat) + ", slot="@ + slot_choice_text(slot) + ")"@,
        Effect::Transform { target, into } => "Transform("@ + target_text(target) + " -> '"@ + into.name@ + "' "@
            + dec(into.attack as nat) + "/"@ + dec(into.health as nat) + ")"@,
        Effect::Copy { target, owner } => "Copy("@ + target_text(target) + " for "@ + player_text(owner) + ")"@,
        Effect::DestroySelf { owner, slot } => "DestroySelf("@ + player_text(owner) + "_Slot"@ + dec(slot.0 as nat) + ")"@,
    }
}

/// Whether every player id in an effect can be printed.
pub open spec fn effect_printable(e: Effect) -> bool {
    match e {
        Effect::Damage { target, .. } | Effect::Heal { target, .. } | Effect::BuffStats { target, .. }
        | Effect::SetStats { target, .. } | Effect::GrantKeyword { target, .. } | Effect::RemoveKeyword { target, .. }
        | Effect::Destroy { target, .. } | Effect::Silence { target, .. } | Effect::RefreshCreature { target }
        | Effect::Bounce { target, .. } | Effect::Transform { target, .. } => target_printable(target),
        Effect::Draw { player, .. } | Effect::GainEssence { player, .. } => player.0 < 255,
        Effect::Summon { owner, .. } | Effect::SummonToken { owner, .. } | Effect::DestroySelf { owner, .. } => owner.0 < 255,
        Effect::Copy { target, owner } => target_printable(target) && owner.0 < 255,
    }
}

/// An optional slot as text ("auto" when none).
fn slot_choice_string(s: Option<crate::gamecore::types::Slot>) -> (r: String)
    ensures
        r@ == slot_choice_text(s),
{
    match s {
        Some(x) => decimal(x.0 as u64),
        None => String::from_str("auto"),
    }
}

/// "<name>(<target>)" for effects that only name a target.
fn named_target(name: &str, t: &EffectTarget) -> (r: String)
    requires
        target_printable(*t),
    ensures
        r@ == name@ + target_text(*t) + ")"@,
{
    let mut s = String::from_str(name);
    s.append(format_target(t).as_str());
    s.append(")");
    s
}

/// "<name>(<target>, <amount>)".
fn named_target_amount(name: &str, t: &EffectTarget, amount: u8) -> (r: String)
    requires
        target_printable(*t),
    ensures
        r@ == name@ + target_text(*t) + ", "@ + dec(amount as nat) + ")"@,
{
    let mut s = String::from_str(name);
    s.append(format_target(t).as_str());
    s.append(", ");
    s.append(decimal(amount as u64).as_str());
    s.append(")");
    s
}

/// "<name>(<target>, 0x<keyword>)".
fn named_target_keyword(name: &str, t: &EffectTarget, keyword: u16) -> (r: String)
    requires
        target_printable(*t),
    ensures
        r@ == name@ + target_text(*t) + ", 0x"@ + pad_left(hex(keyword as nat), 2, "0"@) + ")"@,
{
    let mut s = String::from_str(name);
    s.append(format_target(t).as_str());
    s.append(", 0x");
    s.append(padded_left(hexadecimal(keyword as u64), 2, "0").as_str());
    s.append(")");
    s
}

/// "<name>(P<n>, <amount>)".
fn named_player_amount(name: &str, p: PlayerId, amount: u8) -> (r: String)
    requires
        p.0 < 255,
    ensures
        r@ == name@ + player_text(p) + ", "@ + dec(amount as nat) + ")"@,
{
    let mut s = String::from_str(name);
    s.append(player_string(p).as_str());
    s.append(", ");
    s.append(decimal(amount as u64).as_str());
    s.append(")");
    s
}

/// An effect as text.
pub fn format_effect(e: &Effect) -> (r: String)
    requires
        effect_printable(*e),
    ensures
        r@ == effect_text(*e),
{
    match e {
        Effect::Damage { target, amount, .. } => named_target_amount("Damage(", target, *amount),
        Effect::Heal { target, amount, .. } => named_target_amount("Heal(", target, *amount),
        Effect::BuffStats { target, attack, health, .. } => {
            let mut s = String::from_str("BuffStats(");
            s.append(format_target(target).as_str());
            s.append(", ");
            s.append(plus_signed_decimal(*attack).as_str());
            s.append("/");
            s.append(plus_signed_decimal(*health).as_str());
            s.append(")");
            s
        }
        Effect::SetStats { target, attack, health } => {
            let mut s = String::from_str("SetStats(");
            s.append(format_target(target).as_str());
            s.append(", ");
            s.append(decimal(*attack as u64).as_str());
            s.append("/");
            s.append(decimal(*health as u64).as_str());
            s.append(")");
            s
        }
        Effect::GrantKeyword { target, keyword, .. } => named_target_keyword("GrantKeyword(", target, *keyword),
        Effect::RemoveKeyword { target, keyword, .. } => named_target_keyword("RemoveKeyword(", target, *keyword),
        Effect::Destroy { target, .. } => named_target("Destroy(", target),
        Effect::Silence { target, .. } => named_target("Silence(", target),
        Effect::Draw { player, count } => named_player_amount("Draw(", *player, *count),
        Effect::GainEssence { player, amount } => named_player_amount("GainEssence(", *player, *amount),
        Effect::RefreshCreature { target } => named_target("Refresh(", target),
        Effect::Summon { owner, card_id, slot } => {
            let mut s = String::from_str("Summon(");
            s.append(player_string(*owner).as_str());
            s.append(", card=");
            s.append(decimal(card_id.0 as u64).as_str());
            s.append(", slot=");
            s.append(slot_choice_string(*slot).as_str());
            s.append(")");
            s
        }
        Effect::Bounce { target, .. } => named_target("Bounce(", target),
        Effect::SummonToken { owner, token, slot } => {
            let mut s = String::from_str("SummonToken(");
            s.append(player_string(*owner).as_str());
            s.append(", '");
            s.append(token.name.as_str());
            s.append("' ");
            s.append(decimal(token.attack as u64).as_str());
            s.append("/");
            s.append(decimal(token.health as u64).as_str());
            s.append(", slot=");
            s.append(slot_choice_string(*slot).as_str());
            s.append(")");
            s
        }
        Effect::Transform { target, into } => {
            let mut s = String::from_str("Transform(");
            s.append(format_target(target).as_str());
            s.append(" -> '");
            s.append(into.name.as_str());
            s.append("' ");
            s.append(decimal(into.attack as u64).as_str());
            s.append("/");
            s.append(decimal(into.health as u64).as_str());
            s.append(")");
            s
        }
        Effect::Copy { target, owner } => {
            let mut s = String::from_str("Copy(");
            s.append(format_target(target).as_str());
            s.append(" for ");
            s.append(player_string(*owner).as_str());
            s.append(")");
            s
        }
        Effect::DestroySelf { owner, slot } => {
            let mut s = String::from_str("DestroySelf(");
            s.append(player_string(*owner).as_str());
            s.append("_Slot");
            s.append(decimal(slot.0 as u64).as_str());
            s.append(")");
            s
        }
    }
}

/// An effect source as text.
pub open spec fn source_text(s: EffectSource) -> Seq<char> {
    match s {
        EffectSource::Card(id) => "Card(id="@ + dec(id.0 as nat) + ")"@,
        EffectSource::Creature { owner, slot } => "Creature("@ + player_text(owner) + ", Slot"@ + dec(slot.0 as nat) + ")"@,
        EffectSource::Support { owner, slot } => "Support("@ + player_text(owner) + ", Slot"@ + dec(slot.0 as nat) + ")"@,
        EffectSource::Commander { owner } => "Commander("@ + player_text(owner) + ")"@,
        EffectSource::System => "System"@,
    }
}

/// Whether every player id in a source can be printed.
pub open spec fn source_printable(s: EffectSource) -> bool {
    match s {
        EffectSource::Creature { owner, .. } | EffectSource::Support { owner, .. } | EffectSource::Commander { owner } =>
            owner.0 < 255,
        _ => true,
    }
}

/// An effect source as text.
pub fn format_source(s: &EffectSource) -> (r: String)
    requires
        source_printable(*s),
    ensures
        r@ == source_text(*s),
{
    match s {
        EffectSource::Card(id) => {
            let mut t = String::from_str("Card(id=");
            t.append(decimal(id.0 as u64).as_str());
            t.append(")");
            t
        }
        EffectSource::Creature { owner, slot } => {
            let mut t = String::from_str("Creature(");
            t.append(player_string(*owner).as_str());
            t.append(", Slot");
            t.append(decimal(slot.0 as u64).as_str());
            t.append(")");
            t
        }
        EffectSource::Support { owner, slot } => {
            let mut t = String::from_str("Support(");
            t.append(player_string(*owner).as_str());
            t.append(", Slot");
            t.append(decimal(slot.0 as u64).as_str());
            t.append(")");
            t
        }
        EffectSource::Commander { owner } => {
            let mut t = String::from_str("Commander(");
            t.append(player_string(*owner).as_str());
            t.append(")");
            t
        }
        EffectSource::System => String::from_str("System"),
    }
}

/// Records effect queue processing for a game.
#[derive(Clone, Debug)]
pub struct EffectTracer {
    pub events: Vec<EffectEvent>,
    pub enabled: bool,
    /// How deep in death-trigger cascades the tracer is.
    pub cascade_depth: usize,
}

/// `post` is `pre` with one more event whose kind, description and depths
/// are given (when tracing is on; otherwise nothing changes).
pub open spec fn event_logged(pre: EffectTracer, post: EffectTracer, kind: EffectEventType, description: Seq<char>,
    queue_depth: usize, cascade_depth: usize) -> bool {
    &&& post.enabled == pre.enabled
    &&& !pre.enabled ==> post == pre
    &&& pre.enabled ==> {
        &&& post.events@.len() == pre.events@.len() + 1
        &&& post.events@.drop_last() == pre.events@
        &&& post.events@.last().event_type == kind
        &&& post.events@.last().description@ == description
        &&& post.events@.last().queue_depth == queue_depth
        &&& post.events@.last().cascade_depth == cascade_depth
    }
}

impl EffectTracer {
    /// How deep in death-trigger cascades the tracer is.
    pub open spec fn depth(&self) -> usize {
        self.cascade_depth
    }

    /// A tracer with no events.
    pub fn new(enabled: bool) -> (r: EffectTracer)
        ensures
            r.enabled == enabled,
            r.events@.len() == 0,
            r.depth() == 0,
    {
        EffectTracer { events: Vec::new(), enabled, cascade_depth: 0 }
    }

    /// Whether tracing is on.
    pub fn is_enabled(&self) -> (r: bool)
        ensures
            r == self.enabled,
    {
        self.enabled
    }

    /// Record the start of queue processing.
    pub fn log_queue_start(&mut self, queue_size: usize)
        ensures
            event_logged(*old(self), *final(self), EffectEventType::QueueStart,
                "Effect queue processing started ("@ + dec(queue_size as nat) + " effects)"@, queue_size, 0),
            final(self).depth() == old(self).depth(),
    {
        if !self.enabled {
            return;
        }
        let mut d = String::from_str("Effect queue processing started (");
        d.append(decimal(queue_size as u64).as_str());
        d.append(" effects)");
        let ghost before = self.events@;
        self.events.push(EffectEvent::new(EffectEventType::QueueStart, d).with_queue_depth(queue_size));
        proof { assert(self.events@.drop_last() =~= before); }
    }

    /// Record the end of queue processing.
    pub fn log_queue_complete(&mut self, effects_processed: usize)
        ensures
            event_logged(*old(self), *final(self), EffectEventType::QueueComplete,
                "Effect queue processing complete ("@ + dec(effects_processed as nat) + " effects processed)"@, 0, 0),
            final(self).depth() == old(self).depth(),
    {
        if !self.enabled {
            return;
        }
        let mut d = String::from_str("Effect queue processing complete (");
        d.append(decimal(effects_processed as u64).as_str());
        d.append(" effects processed)");
        let ghost before = self.events@;
        self.events.push(EffectEvent::new(EffectEventType::QueueComplete, d));
        proof { assert(self.events@.drop_last() =~= before); }
    }

    /// Record an effect being queued.
    pub fn log_effect_queued(&mut self, effect: &Effect, source: &EffectSource, queue_size: usize)
        requires
            effect_printable(*effect),
            source_printable(*source),
        ensures
            event_logged(*old(self), *final(self), EffectEventType::Queued,
                effect_text(*effect) + " queued from "@ + source_text(*source), queue_size, old(self).depth()),
            final(self).depth() == old(self).depth(),
    {
        if !self.enabled {
            return;
        }
        let mut d = format_effect(effect);
        d.append(" queued from ");
        d.append(format_source(source).as_str());
        let ghost before = self.events@;
        self.events.push(EffectEvent::new(EffectEventType::Queued, d).with_queue_depth(queue_size)
            .with_cascade_depth(self.cascade_depth));
        proof { assert(self.events@.drop_last() =~= before); }
    }

    /// Record the start of an effect's execution.
    pub fn log_effect_start(&mut self, effect: &Effect, queue_remaining: usize)
        requires
            effect_printable(*effect),
        ensures
            event_logged(*old(self), *final(self), EffectEventType::ExecutionStart,
                "Executing: "@ + effect_text(*effect), queue_remaining, old(self).depth()),
            final(self).depth() == old(self).depth(),
    {
        if !self.enabled {
            return;
        }
        let mut d = String::from_str("Executing: ");
        d.append(format_effect(effect).as_str());
        let ghost before = self.events@;
        self.events.push(EffectEvent::new(EffectEventType::ExecutionStart, d).with_queue_depth(queue_remaining)
            .with_cascade_depth(self.cascade_depth));
        proof { assert(self.events@.drop_last() =~= before); }
    }

    /// Record the end of an effect's execution, with its state changes.
    pub fn log_effect_complete(&mut self, effect: &Effect, changes: Vec<String>)
        requires
            effect_printable(*effect),
        ensures
            event_logged(*old(self), *final(self), EffectEventType::ExecutionComplete,
                "Completed: "@ + effect_text(*effect), 0, old(self).depth()),
            old(self).enabled ==> final(self).events@.last().state_changes@ == changes@,
            final(self).depth() == old(self).depth(),
    {
        if !self.enabled {
            return;
        }
        let mut d = String::from_str("Completed: ");
        d.append(format_effect(effect).as_str());
        let mut event = EffectEvent::new(EffectEventType::ExecutionComplete, d).with_cascade_depth(self.cascade_depth);
        let mut changes = changes;
        let ghost all = changes@;
        let n = changes.len();
        let mut i: usize = 0;
        while changes.len() > 0
            invariant
                i <= all.len(),
                all.len() == n,
                changes@.len() + i == all.len(),
                changes@ == all.subrange(i as int, all.len() as int),
                event.state_changes@ == all.subrange(0, i as int),
                event.event_type == EffectEventType::ExecutionComplete,
                event.description@ == "Completed: "@ + effect_text(*effect),
                event.queue_depth == 0,
                event.cascade_depth == self.cascade_depth,
            decreases changes@.len(),
        {
            let c = changes.remove(0);
            proof {
                assert(all.subrange(i as int, all.len() as int)[0] == all[i as int]);
                assert(changes@ =~= all.subrange(i + 1, all.len() as int));
                assert(all.subrange(0, i + 1) =~= all.subrange(0, i as int).push(all[i as int]));
            }
            event = event.with_state_change(c);
            i = i + 1;
        }
        proof { assert(all.subrange(0, all.len() as int) =~= all); }
        let ghost before = self.events@;
        self.events.push(event);
        proof { assert(self.events@.drop_last() =~= before); }
    }

    /// Record a death.
    pub fn log_death(&mut self, owner: PlayerId, slot: u8, creature_name: &str)
        requires
            owner.0 < 255,
        ensures
            event_logged(*old(self), *final(self), EffectEventType::DeathDetected,
                "Death: "@ + creature_name@ + " ("@ + player_text(owner) + " Slot "@ + dec(slot as nat) + ")"@,
                0, old(self).depth()),
            final(self).depth() == old(self).depth(),
    {
        if !self.enabled {
            return;
        }
        let mut d = String::from_str("Death: ");
        d.append(creature_name);
        d.append(" (");
        d.append(player_string(owner).as_str());
        d.append(" Slot ");
        d.append(decimal(slot as u64).as_str());
        d.append(")");
        let ghost before = self.events@;
        self.events.push(EffectEvent::new(EffectEventType::DeathDetected, d).with_cascade_depth(self.cascade_depth));
        proof { assert(self.events@.drop_last() =~= before); }
    }

    /// Record a death trigger firing; the cascade goes one level deeper.
    pub fn log_death_trigger(&mut self, trigger_type: &str, source_owner: PlayerId, source_slot: u8)
        requires
            source_owner.0 < 255,
            old(self).depth() < usize::MAX,
        ensures
            old(self).enabled ==> final(self).depth() == old(self).depth() + 1,
            !old(self).enabled ==> final(self).depth() == old(self).depth(),
            event_logged(*old(self), *final(self), EffectEventType::DeathTrigger,
                trigger_type@ + " triggered from "@ + player_text(source_owner) + " Slot "@ + dec(source_slot as nat),
                0, final(self).depth()),
    {
        if !self.enabled {
            return;
        }
        self.cascade_depth = self.cascade_depth + 1;
        let mut d = String::from_str(trigger_type);
        d.append(" triggered from ");
        d.append(player_string(source_owner).as_str());
        d.append(" Slot ");
        d.append(decimal(source_slot as u64).as_str());
        let ghost before = self.events@;
        self.events.push(EffectEvent::new(EffectEventType::DeathTrigger, d).with_cascade_depth(self.cascade_depth));
        proof { assert(self.events@.drop_last() =~= before); }
    }

    /// Leave one level of death-trigger cascade.
    pub fn end_death_trigger(&mut self)
        ensures
            final(self).depth() == (if old(self).depth() > 0 { (old(self).depth() - 1) as usize } else { 0 }),
            final(self).events == old(self).events,
            final(self).enabled == old(self).enabled,
    {
        if self.cascade_depth > 0 {
            self.cascade_depth = self.cascade_depth - 1;
        }
    }

    /// Forget every event and leave all cascades.
    pub fn clear(&mut self)
        ensures
            final(self).events@.len() == 0,
            final(self).depth() == 0,
            final(self).enabled == old(self).enabled,
    {
        self.events.clear();
        self.cascade_depth = 0;
    }

    /// Every event as text.
    pub fn format(&self) -> (r: String)
        ensures
            r@ == EFFECT_TOP@ + EFFECT_TITLE@ + EFFECT_RULE@ + events_text(self.events@, self.events@.len()) + EFFECT_BOTTOM@,
    {
        let mut out = String::from_str(EFFECT_TOP);
        out.append(EFFECT_TITLE);
        out.append(EFFECT_RULE);
        let mut i: usize = 0;
        while i < self.events.len()
            invariant
                i <= self.events@.len(),
                out@ == EFFECT_TOP@ + EFFECT_TITLE@ + EFFECT_RULE@ + events_text(self.events@, i as nat),
            decreases self.events@.len() - i,
        {
            out.append(format_event(&self.events[i]).as_str());
            i = i + 1;
        }
        out.append(EFFECT_BOTTOM);
        out
    }
}

/// The lines of one event.
fn format_event(event: &EffectEvent) -> (r: String)
    ensures
        r@ == event_text(*event),
{
    let indent = repeated("  ", event.cascade_depth);
    let mut out = String::from_str("║ ");
    out.append(indent.as_str());
    out.append("[");
    out.append(padded_right(event.event_type.to_string(), 12).as_str());
    out.append("] ");
    out.append(event.description.as_str());
    out.append("\n");
    let ghost head = out@;
    let mut q = String::new();
    if event.queue_depth > 0 {
        q.append("║ ");
        q.append(indent.as_str());
        q.append("    └─ Queue: ");
        q.append(decimal(event.queue_depth as u64).as_str());
        q.append(" remaining\n");
    }
    let mut c = String::new();
    let mut k: usize = 0;
    while k < event.state_changes.len()
        invariant
            k <= event.state_changes@.len(),
            indent@ == repeat("  "@, event.cascade_depth as nat),
            c@ == changes_text(event.state_changes@, indent@, k as nat),
        decreases event.state_changes@.len() - k,
    {
        c.append("║ ");
        c.append(indent.as_str());
        c.append("    └─ ");
        c.append(event.state_changes[k].as_str());
        c.append("\n");
        k = k + 1;
    }
    out.append(q.as_str());
    out.append(c.as_str());
    out
}

/// Top border of an effect trace.
pub const EFFECT_TOP: &'static str = "╔══════════════════════════════════════════════════════════════════╗\n";
/// Title line of an effect trace.
pub const EFFECT_TITLE: &'static str = "║                      EFFECT QUEUE TRACE                          ║\n";
/// Separator line of an effect trace.
pub const EFFECT_RULE: &'static str = "╠══════════════════════════════════════════════════════════════════╣\n";
/// Bottom border of an effect trace.
pub const EFFECT_BOTTOM: &'static str = "╚══════════════════════════════════════════════════════════════════╝\n";

/// The lines of the first `k` state changes, indented.
pub open spec fn changes_text(cs: Seq<String>, indent: Seq<char>, k: nat) -> Seq<char>
    decreases k,
{
    if k == 0 { Seq::empty() } else { changes_text(cs, indent, (k - 1) as nat) + "║ "@ + indent + "    └─ "@ + cs[k - 1]@ + "\n"@ }
}

/// The lines of one event.
pub open spec fn event_text(e: EffectEvent) -> Seq<char> {
    let indent = repeat("  "@, e.cascade_depth as nat);
    "║ "@ + indent + "["@ + pad_right(event_label(e.event_type), 12) + "] "@ + e.description@ + "\n"@
        + (if e.queue_depth > 0 { "║ "@ + indent + "    └─ Queue: "@ + dec(e.queue_depth as nat) + " remaining\n"@ } else { Seq::empty() })
        + changes_text(e.state_changes@, indent, e.state_changes@.len())
}

/// The lines of the first `n` events.
pub open spec fn events_text(es: Seq<EffectEvent>, n: nat) -> Seq<char>
    decreases n,
{
    if n == 0 { Seq::empty() } else { events_text(es, (n - 1) as nat) + event_text(es[n - 1]) }
}

} // verus!
