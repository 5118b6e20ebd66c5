//! Validation of global-shortcut strings and the bookkeeping of what
//! is registered under which name.
//!
//! The actual registration with the window system happens outside;
//! this module decides whether a string is a well-formed shortcut and
//! keeps the name-to-key map that tells the outside which old binding
//! to release.

use vstd::prelude::*;

use crate::models::{ApiResult, opt_string_view};
use crate::strutil::is_prefix_of;

verus! {

#[verifier::external_type_specification]
#[verifier::external_body]
pub struct ExHotKey(global_hotkey::hotkey::HotKey);

/// Whether the hotkey grammar accepts a shortcut string: the outcome
/// of `global_hotkey::hotkey::HotKey`'s `FromStr` (the parser behind
/// the desktop shell's shortcut plugin), which depends on the string
/// alone.
pub uninterp spec fn shortcut_parses(s: Seq<char>) -> bool;

/// The abstract value of the registration map: name and key pairs in
/// registration order.
pub open spec fn regs_view(s: Seq<(String, String)>) -> Seq<(Seq<char>, Seq<char>)> {
    s.map_values(|p: (String, String)| (p.0@, p.1@))
}

/// Keeps which key combination is registered under which name
/// ("toggle", "clipboard", "quick_note").
pub struct ShortcutManager {
    registered: Vec<(String, String)>,
}

impl ShortcutManager {
    /// The registered name-to-key pairs, in registration order.
    pub closed spec fn registrations(&self) -> Seq<(Seq<char>, Seq<char>)> {
        regs_view(self.registered@)
    }

    /// A fresh manager with nothing registered.
    pub fn new() -> (r: ShortcutManager)
        ensures
            r.registrations() == Seq::<(Seq<char>, Seq<char>)>::empty(),
    {
        let r = ShortcutManager { registered: Vec::new() };
        proof {
            assert(r.registrations() =~= Seq::<(Seq<char>, Seq<char>)>::empty());
        }
        r
    }

    /// Relies on `global_hotkey::hotkey::HotKey::from_str`: whether a
    /// string parses as a hotkey depends on the string alone; the
    /// error message opens by naming the offending string.
    #[verifier::external_body]
    pub fn parse_shortcut(key: &str) -> (r: Result<global_hotkey::hotkey::HotKey, String>)
        ensures
            (r is Ok) == shortcut_parses(key@),
            r matches Err(e) ==> is_prefix_of("Invalid shortcut '"@ + key@ + "': "@, e@),
    {
        match key.parse::<global_hotkey::hotkey::HotKey>() {
            Ok(hotkey) => Ok(hotkey),
            Err(e) => Err(format!("Invalid shortcut '{}': {}", key, e)),
        }
    }

    /// Returns whether a shortcut string is well formed.
    pub fn is_valid_shortcut(key: &str) -> (r: bool)
        ensures
            r == shortcut_parses(key@),
    {
        Self::parse_shortcut(key).is_ok()
    }

    /// Records that `key` is now registered under `name`, replacing
    /// any earlier binding in place, and hands back the key that has
    /// to be released with the window system, if there was one.
    pub fn record_registration(&mut self, name: &str, key: &str) -> (old_key: Option<String>)
        ensures
            ({
                let before = old(self).registrations();
                let after = final(self).registrations();
                ||| (exists|i: int|
                    0 <= i < before.len() && (#[trigger] before[i]).0 == name@ && (forall|j: int|
                        0 <= j < i ==> (#[trigger] before[j]).0 != name@) && after
                        == before.update(i, (name@, key@)) && opt_string_view(old_key) == Some(
                        before[i].1,
                    ))
                ||| ((forall|j: int| 0 <= j < before.len() ==> (#[trigger] before[j]).0 != name@)
                    && after == before.push((name@, key@)) && old_key is None)
            }),
    {
        let n = self.registered.len();
        let mut i: usize = 0;
        while i < n
            invariant
                n == self.registered@.len(),
                i <= n,
                forall|j: int| 0 <= j < i ==> (#[trigger] self.registrations()[j]).0 != name@,
                self == old(self),
            decreases n - i,
        {
            if crate::strutil::str_eq(self.registered[i].0.as_str(), name) {
                let ghost before = old(self).registrations();
                let prev = self.registered[i].1.clone();
                self.registered.set(i, (name.to_owned(), key.to_owned()));
                proof {
                    assert(before[i as int].0 == name@);
                    assert(final(self).registrations() =~= before.update(i as int, (name@, key@)));
                    assert(prev@ == before[i as int].1);
                    assert((exists|ii: int|
                        0 <= ii < before.len() && (#[trigger] before[ii]).0 == name@ && (
                        forall|j: int| 0 <= j < ii ==> (#[trigger] before[j]).0 != name@)
                            && final(self).registrations() == before.update(ii, (name@, key@))
                            && opt_string_view(Some(prev)) == Some(before[ii].1))) by {
                        assert(0 <= i < before.len() && (#[trigger] before[i as int]).0 == name@
                            && (forall|j: int|
                            0 <= j < i ==> (#[trigger] before[j]).0 != name@)
                            && final(self).registrations() == before.update(
                            i as int,
                            (name@, key@),
                        )
                            && opt_string_view(Some(prev)) == Some(before[i as int].1));
                    }
                }
                return Some(prev);
            }
            i = i + 1;
        }
        self.registered.push((name.to_owned(), key.to_owned()));
        proof {
            assert(final(self).registrations() =~= old(self).registrations().push(
                (name@, key@),
            ));
        }
        None
    }

    /// Removes the binding under `name`, handing back the key to
    /// release, if there was one.
    pub fn take_registration(&mut self, name: &str) -> (old_key: Option<String>)
        ensures
            ({
                let before = old(self).registrations();
                let after = final(self).registrations();
                ||| (exists|i: int|
                    0 <= i < before.len() && (#[trigger] before[i]).0 == name@ && (forall|j: int|
                        0 <= j < i ==> (#[trigger] before[j]).0 != name@) && after
                        == before.remove(i) && opt_string_view(old_key) == Some(before[i].1))
                ||| ((forall|j: int| 0 <= j < before.len() ==> (#[trigger] before[j]).0 != name@)
                    && after == before && old_key is None)
            }),
    {
        let n = self.registered.len();
        let mut i: usize = 0;
        while i < n
            invariant
                n == self.registered@.len(),
                i <= n,
                forall|j: int| 0 <= j < i ==> (#[trigger] self.registrations()[j]).0 != name@,
                self == old(self),
            decreases n - i,
        {
            if crate::strutil::str_eq(self.registered[i].0.as_str(), name) {
                let ghost before = old(self).registrations();
                let (_, prev) = self.registered.remove(i);
                proof {
                    assert(before[i as int].0 == name@);
                    assert(final(self).registrations() =~= before.remove(i as int));
                    assert(prev@ == before[i as int].1);
                    assert((exists|ii: int|
                        0 <= ii < before.len() && (#[trigger] before[ii]).0 == name@ && (
                        forall|j: int| 0 <= j < ii ==> (#[trigger] before[j]).0 != name@)
                            && final(self).registrations() == before.remove(ii)
                            && opt_string_view(Some(prev)) == Some(before[ii].1))) by {
                        assert(0 <= i < before.len() && (#[trigger] before[i as int]).0 == name@
                            && (forall|j: int|
                            0 <= j < i ==> (#[trigger] before[j]).0 != name@)
                            && final(self).registrations() == before.remove(i as int)
                            && opt_string_view(Some(prev)) == Some(before[i as int].1));
                    }
                }
                return Some(prev);
            }
            i = i + 1;
        }
        None
    }

    /// Empties the map, handing back every registered key so the
    /// caller can release them all.
    pub fn clear_registrations(&mut self) -> (keys: Vec<String>)
        ensures
            final(self).registrations() == Seq::<(Seq<char>, Seq<char>)>::empty(),
            keys@.len() == old(self).registrations().len(),
            forall|i: int|
                0 <= i < keys@.len() ==> keys@[i]@ == (#[trigger] old(
                    self,
                ).registrations()[i]).1,
    {
        let mut keys: Vec<String> = Vec::new();
        let n = self.registered.len();
        let mut i: usize = 0;
        while i < n
            invariant
                n == self.registered@.len(),
                i <= n,
                self == old(self),
                keys@.len() == i,
                forall|j: int|
                    0 <= j < i ==> keys@[j]@ == (#[trigger] old(self).registrations()[j]).1,
            decreases n - i,
        {
            keys.push(self.registered[i].1.clone());
            i = i + 1;
        }
        self.registered = Vec::new();
        proof {
            assert(final(self).registrations() =~= Seq::<(Seq<char>, Seq<char>)>::empty());
        }
        keys
    }

    /// A copy of the registered name-to-key pairs.
    pub fn get_registered_shortcuts(&self) -> (r: Vec<(String, String)>)
        ensures
            regs_view(r@) == self.registrations(),
    {
        let mut out: Vec<(String, String)> = Vec::new();
        let n = self.registered.len();
        let mut i: usize = 0;
        while i < n
            invariant
                n == self.registered@.len(),
                i <= n,
                regs_view(out@) =~= self.registrations().take(i as int),
            decreases n - i,
        {
            let ghost old_out = out@;
            out.push((self.registered[i].0.clone(), self.registered[i].1.clone()));
            proof {
                assert(out@ == old_out.push(
                    (self.registered@[i as int].0, self.registered@[i as int].1),
                ));
                assert(regs_view(old_out).len() == i as int);
                assert(old_out.len() == i as int);
                assert(out@.len() == i + 1);
                assert(out@[i as int] == (
                    self.registered@[i as int].0,
                    self.registered@[i as int].1,
                ));
                assert(regs_view(out@)[i as int] == (out@[i as int].0@, out@[i as int].1@));
                assert(self.registrations()[i as int] == (
                    self.registered@[i as int].0@,
                    self.registered@[i as int].1@,
                ));
                assert(forall|j: int|
                    0 <= j < i ==> regs_view(out@)[j] == regs_view(old_out)[j]);
                assert(regs_view(out@) =~= self.registrations().take(i + 1));
            }
            i = i + 1;
        }
        proof {
            assert(self.registrations().take(n as int) =~= self.registrations());
        }
        out
    }
}

impl Default for ShortcutManager {
    /// Same as [`ShortcutManager::new`].
    fn default() -> (r: ShortcutManager)
        ensures
            r.registrations() == Seq::<(Seq<char>, Seq<char>)>::empty(),
    {
        ShortcutManager::new()
    }
}

/// Validates a shortcut string for the command layer: a rejected
/// string comes back as the uniform error envelope, its message
/// naming the offending key.
pub fn validate_shortcut(key: &str) -> (r: Result<(), ApiResult>)
    ensures
        shortcut_parses(key@) ==> r is Ok,
        !shortcut_parses(key@) ==> (r matches Err(a) && !a.success && (a.error matches Some(m)
            && is_prefix_of("Invalid shortcut '"@ + key@ + "': "@, m@))),
{
    match ShortcutManager::parse_shortcut(key) {
        Ok(_) => Ok(()),
        Err(e) => Err(ApiResult::error(e)),
    }
}

} // verus!
