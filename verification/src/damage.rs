//! Kinds of damage and how strongly something suffers from them.

use vstd::prelude::*;

verus! {

#[derive(Copy, Clone, PartialEq, Eq, Structural, Debug)]
pub enum DamageType {
    Blunt,
    Pierce,
    Slash,
    Cut,
}

/// A value for some of the kinds of damage. `F` is the type of the values.
#[derive(Clone, Copy)]
pub struct DamageTable<F: Copy> {
    pub blunt: Option<F>,
    pub pierce: Option<F>,
    pub slash: Option<F>,
    pub cut: Option<F>,
}

impl<F: Copy> DamageTable<F> {
    /// The value for a kind of damage.
    pub open spec fn at(self, damage_type: DamageType) -> Option<F> {
        match damage_type {
            DamageType::Blunt => self.blunt,
            DamageType::Pierce => self.pierce,
            DamageType::Slash => self.slash,
            DamageType::Cut => self.cut,
        }
    }

    /// A table without values.
    pub fn empty() -> (r: DamageTable<F>)
        ensures
            forall|damage_type: DamageType| #[trigger] r.at(damage_type) is None,
    {
        DamageTable { blunt: None, pierce: None, slash: None, cut: None }
    }

    /// The value for a kind of damage.
    pub fn get(&self, damage_type: DamageType) -> (r: Option<F>)
        ensures
            r == self.at(damage_type),
    {
        match damage_type {
            DamageType::Blunt => self.blunt,
            DamageType::Pierce => self.pierce,
            DamageType::Slash => self.slash,
            DamageType::Cut => self.cut,
        }
    }

    /// The place of the value for a kind of damage: what is written there changes this value and no
    /// other.
    pub fn get_mut(&mut self, damage_type: DamageType) -> (r: &mut Option<F>)
        ensures
            *r == old(self).at(damage_type),
            forall|other: DamageType| #[trigger]
                final(self).at(other) == if other == damage_type {
                    *final(r)
                } else {
                    old(self).at(other)
                },
    {
        match damage_type {
            DamageType::Blunt => &mut self.blunt,
            DamageType::Pierce => &mut self.pierce,
            DamageType::Slash => &mut self.slash,
            DamageType::Cut => &mut self.cut,
        }
    }

    /// The kinds of damage that have a value, with it, in order.
    pub fn iter(&self) -> (r: Vec<(DamageType, F)>)
        ensures
            r@ == self.entry(DamageType::Blunt) + self.entry(DamageType::Pierce) + self.entry(
                DamageType::Slash,
            ) + self.entry(DamageType::Cut),
    {
        let mut r: Vec<(DamageType, F)> = Vec::new();
        self.push_entry(&mut r, DamageType::Blunt);
        self.push_entry(&mut r, DamageType::Pierce);
        self.push_entry(&mut r, DamageType::Slash);
        self.push_entry(&mut r, DamageType::Cut);
        r
    }

    /// A kind of damage with its value, if it has one.
    pub open spec fn entry(self, damage_type: DamageType) -> Seq<(DamageType, F)> {
        match self.at(damage_type) {
            Some(value) => seq![(damage_type, value)],
            None => Seq::empty(),
        }
    }

    fn push_entry(&self, list: &mut Vec<(DamageType, F)>, damage_type: DamageType)
        ensures
            final(list)@ == old(list)@ + self.entry(damage_type),
    {
        let ghost before = list@;
        if let Some(value) = self.get(damage_type) {
            list.push((damage_type, value));
        }
        assert(list@ =~= before + self.entry(damage_type));
    }
}

/// The value for a kind of damage is the one that bears its name.
pub proof fn law_damage_kinds<F: Copy>(table: DamageTable<F>, kind: DamageType)
    ensures
        table.at(DamageType::Blunt) == table.blunt,
        table.at(DamageType::Pierce) == table.pierce,
        table.at(DamageType::Slash) == table.slash,
        table.at(DamageType::Cut) == table.cut,
        table.at(kind) is None <==> table.entry(kind).len() == 0,
        table.at(kind) matches Some(value) ==> table.entry(kind).len() == 1 && table.entry(kind)[0].0
            == kind && table.entry(kind)[0].1 == value,
{
}

} // verus!
