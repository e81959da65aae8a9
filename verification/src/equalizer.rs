//! The boundary between the audio stream and the display: which host and
//! device a selector picks, and when a stream may be played or paused.

pub mod dsp;

use vstd::prelude::*;
use crate::errors::{Error, StreamOp};

verus! {

/// The index of the last of `names` that is exactly `wanted`.
pub fn find_named(names: &Vec<String>, wanted: &String) -> (found: Option<usize>)
    ensures
        match found {
            Some(index) => {
                &&& index < names.len()
                &&& names[index as int]@ == wanted@
                &&& forall|later: int| index < later < names.len() ==> names[later]@ != wanted@
            },
            None => forall|any: int| 0 <= any < names.len() ==> names[any]@ != wanted@,
        },
{
    let mut found: Option<usize> = None;
    let mut index: usize = 0;
    while index < names.len()
        invariant
            index <= names.len(),
            match found {
                Some(at) => {
                    &&& at < index
                    &&& names[at as int]@ == wanted@
                    &&& forall|later: int| at < later < index ==> names[later]@ != wanted@
                },
                None => forall|any: int| 0 <= any < index ==> names[any]@ != wanted@,
            },
        decreases names.len() - index,
    {
        if names[index] == *wanted {
            found = Some(index);
        }
        index += 1;
    }
    found
}

/// The host that a selector picks among the hosts' names: none where no
/// selector is given, which stands for the default host; else the last
/// host of that name; an error where no host has it.
pub fn select_host(names: &Vec<String>, wanted: &Option<String>) -> (choice: Result<
    Option<usize>,
    Error,
>)
    ensures
        match wanted {
            None => choice == Ok::<Option<usize>, Error>(None),
            Some(name) => match choice {
                Ok(picked) => {
                    &&& picked matches Some(index)
                    &&& index < names.len()
                    &&& names[index as int]@ == name@
                    &&& forall|later: int| index < later < names.len() ==> names[later]@ != name@
                },
                Err(e) => {
                    &&& e == Error::NoCpalDevice
                    &&& forall|any: int| 0 <= any < names.len() ==> names[any]@ != name@
                },
            },
        },
{
    match wanted {
        None => Ok(None),
        Some(name) => match find_named(names, name) {
            Some(index) => Ok(Some(index)),
            None => Err(Error::NoCpalDevice),
        },
    }
}

/// The input device that a selector picks among the devices' names: the
/// last device of that name; an error where no device has it or no
/// selector is given.
pub fn select_device(names: &Vec<String>, wanted: &Option<String>) -> (choice: Result<usize, Error>)
    ensures
        match choice {
            Ok(index) => {
                &&& wanted matches Some(name)
                &&& index < names.len()
                &&& names[index as int]@ == name@
                &&& forall|later: int| index < later < names.len() ==> names[later]@ != name@
            },
            Err(e) => {
                &&& e == Error::NoCpalDevice
                &&& wanted matches Some(name) ==> forall|any: int|
                    0 <= any < names.len() ==> names[any]@ != name@
            },
        },
{
    match wanted {
        None => Err(Error::NoCpalDevice),
        Some(name) => match find_named(names, name) {
            Some(index) => Ok(index),
            None => Err(Error::NoCpalDevice),
        },
    }
}

/// Whether the stream may be played or paused: only once it is connected.
pub fn stream_ready(operation: StreamOp, connected: bool) -> (answer: Result<(), Error>)
    ensures
        connected ==> answer is Ok,
        !connected ==> answer == Err::<(), Error>(Error::StreamOperation(operation)),
{
    if connected {
        Ok(())
    } else {
        Err(Error::StreamOperation(operation))
    }
}

} // verus!
