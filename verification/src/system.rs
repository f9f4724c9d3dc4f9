// Looking up hosts and devices by name among what the backend lists.

use crate::error::PatchbayError;
use crate::stream::StreamSide;
use crate::text::same_text;
use vstd::prelude::*;

verus! {

/// Whether a listed name, where the backend could tell it, is `wanted`.
pub open spec fn is_named(listed: Option<String>, wanted: Seq<char>) -> bool {
    listed matches Some(name) && name@ == wanted
}

/// `i` is the first place in `listed` that holds the name `wanted`.
pub open spec fn is_first_named(listed: Seq<Option<String>>, wanted: Seq<char>, i: int) -> bool {
    &&& 0 <= i < listed.len()
    &&& is_named(listed[i], wanted)
    &&& forall|j: int| 0 <= j < i ==> !is_named(#[trigger] listed[j], wanted)
}

/// No place in `listed` holds the name `wanted`.
pub open spec fn none_named(listed: Seq<Option<String>>, wanted: Seq<char>) -> bool {
    forall|j: int| 0 <= j < listed.len() ==> !is_named(#[trigger] listed[j], wanted)
}

/// Finds the first place in `listed` that holds the name `wanted`. A place
/// whose name the backend could not tell is passed over.
pub fn position_of(listed: &Vec<Option<String>>, wanted: &str) -> (found: Option<usize>)
    ensures
        match found {
            Some(i) => is_first_named(listed@, wanted@, i as int),
            None => none_named(listed@, wanted@),
        },
{
    let mut i: usize = 0;
    while i < listed.len()
        invariant
            i <= listed.len(),
            forall|j: int| 0 <= j < i ==> !is_named(#[trigger] listed@[j], wanted@),
        decreases listed.len() - i,
    {
        match &listed[i] {
            Some(name) => {
                if same_text(name.as_str(), wanted) {
                    return Some(i);
                }
            },
            None => {},
        }
        i += 1;
    }
    None
}

/// Finds the host called `name` among the names of the available hosts, in
/// the order in which the backend lists them.
pub fn find_host(hosts: &Vec<Option<String>>, name: &str) -> (found: Result<usize, PatchbayError>)
    ensures
        match found {
            Ok(i) => is_first_named(hosts@, name@, i as int),
            Err(e) => e == PatchbayError::HostNotFound && none_named(hosts@, name@),
        },
{
    match position_of(hosts, name) {
        Some(i) => Ok(i),
        None => Err(PatchbayError::HostNotFound),
    }
}

/// Finds the capturing device called `device_name` among the names of a
/// host's input devices.
pub fn find_input_device(devices: &Vec<Option<String>>, device_name: &str) -> (found: Result<
    usize,
    PatchbayError,
>)
    ensures
        match found {
            Ok(i) => is_first_named(devices@, device_name@, i as int),
            Err(e) => e == PatchbayError::DeviceNotFound(StreamSide::Source) && none_named(
                devices@,
                device_name@,
            ),
        },
{
    match position_of(devices, device_name) {
        Some(i) => Ok(i),
        None => Err(PatchbayError::DeviceNotFound(StreamSide::Source)),
    }
}

/// Finds the playing device called `device_name` among the names of a
/// host's output devices.
pub fn find_output_device(devices: &Vec<Option<String>>, device_name: &str) -> (found: Result<
    usize,
    PatchbayError,
>)
    ensures
        match found {
            Ok(i) => is_first_named(devices@, device_name@, i as int),
            Err(e) => e == PatchbayError::DeviceNotFound(StreamSide::Sink) && none_named(
                devices@,
                device_name@,
            ),
        },
{
    match position_of(devices, device_name) {
        Some(i) => Ok(i),
        None => Err(PatchbayError::DeviceNotFound(StreamSide::Sink)),
    }
}

} // verus!
