//! What the user has chosen: the input device and the output language.

use crate::sense_voice::Language;
use vstd::prelude::*;

verus! {

/// The user's choices.
#[derive(Debug)]
pub struct Config {
    /// Name of the chosen input device, if there is one.
    pub select_device_name: Option<String>,
    /// Output language of the offline recognizer.
    pub language: Language,
}

impl Config {
    /// The choices at start: the default input device, given by its name
    /// where the machine has one, and Chinese.
    pub fn new(default_device_name: Option<String>) -> (config: Self)
        ensures
            config.select_device_name == default_device_name,
            config.language == Language::Chinese,
    {
        Config { select_device_name: default_device_name, language: Language::Chinese }
    }
}

/// The place of the first named device whose name is `target`; the number of
/// devices where there is none.
pub open spec fn first_named(names: Seq<Option<String>>, target: Seq<char>) -> int
    decreases names.len(),
{
    if names.len() == 0 {
        0
    } else {
        let place = first_named(names.drop_last(), target);
        if place < names.len() - 1 {
            place
        } else if names.last() is Some && names.last()->0@ == target {
            names.len() - 1
        } else {
            names.len() as int
        }
    }
}

/// The first place of a name is the least index that holds it.
pub proof fn lemma_first_named(names: Seq<Option<String>>, target: Seq<char>)
    ensures
        0 <= first_named(names, target) <= names.len(),
        first_named(names, target) < names.len() ==> names[first_named(names, target)] is Some
            && names[first_named(names, target)]->0@ == target,
        forall|j: int|
            0 <= j < first_named(names, target) ==> !((#[trigger] names[j]) is Some && names[j]->0@
                == target),
    decreases names.len(),
{
    if names.len() > 0 {
        lemma_first_named(names.drop_last(), target);
        let place = first_named(names.drop_last(), target);
        assert forall|j: int| 0 <= j < first_named(names, target) implies !((
        #[trigger] names[j]) is Some && names[j]->0@ == target) by {
            if j < names.len() - 1 {
                assert(names.drop_last()[j] == names[j]);
            }
        }
        if place < names.len() - 1 {
            assert(names.drop_last()[place] == names[place]);
        }
    }
}

/// Finds the input device of the given name. `device_names` holds the name
/// of every input device, in the order in which the machine lists them, and
/// `None` for a device that gives no name. Returns the place of the first
/// device of that name, or `None` where no device has it.
pub fn get_device_by_name(device_names: &Vec<Option<String>>, target_device_name: &String) -> (place:
    Option<usize>)
    ensures
        match place {
            Some(i) => i == first_named(device_names@, target_device_name@) && i
                < device_names@.len(),
            None => first_named(device_names@, target_device_name@) == device_names@.len(),
        },
{
    let mut i: usize = 0;
    proof {
        lemma_first_named(device_names@, target_device_name@);
    }
    while i < device_names.len()
        invariant
            i <= device_names@.len(),
            i <= first_named(device_names@, target_device_name@) <= device_names@.len(),
        decreases device_names@.len() - i,
    {
        let found = match &device_names[i] {
            Some(device_name) => *device_name == *target_device_name,
            None => false,
        };
        proof {
            lemma_first_named(device_names@, target_device_name@);
        }
        if found {
            return Some(i);
        }
        i = i + 1;
    }
    None
}

} // verus!
