//! Windows: where a path belongs, once it is known how it begins.
use vstd::prelude::*;

use crate::source_context::descriptor::SourceContextUnavailable;

verus! {

/// How a path begins.
#[derive(Debug, Clone, Copy, PartialEq, Eq, Structural)]
pub enum PathHead {
    /// With a drive letter, verbatim or not.
    Drive(u8),
    /// With another prefix, such as a share.
    OtherPrefix,
    /// With a separator.
    Root,
    /// With a name, or with nothing.
    Name,
}

/// What becomes of a path.
#[derive(Debug, Clone, Copy, PartialEq, Eq, Structural)]
pub enum Placement {
    /// It stays as it is.
    AsGiven,
    /// What follows its prefix is joined to the base.
    TailBelowBase,
    /// It is put behind the prefix of the base.
    BehindBasePrefix,
    /// It is joined to the base.
    BelowBase,
}

/// A letter in lower case.
pub open spec fn lower(letter: u8) -> u8 {
    if 0x41 <= letter <= 0x5a {
        (letter + 0x20) as u8
    } else {
        letter
    }
}

/// Where a path belongs. A path that is relative to a drive belongs below a base on that drive,
/// and a path without a prefix behind that of the base. Other prefixes without a root belong
/// nowhere.
pub open spec fn placement_of(absolute: bool, path: PathHead, base: PathHead) -> Option<Placement> {
    if absolute {
        Some(Placement::AsGiven)
    } else {
        match (path, base) {
            (PathHead::Drive(drive), PathHead::Drive(base_drive)) => if lower(drive) == lower(
                base_drive,
            ) {
                Some(Placement::TailBelowBase)
            } else {
                None
            },
            (PathHead::Drive(_), _) => None,
            (PathHead::OtherPrefix, _) => None,
            (PathHead::Root, PathHead::Drive(_)) => Some(Placement::BehindBasePrefix),
            (PathHead::Root, PathHead::OtherPrefix) => Some(Placement::BehindBasePrefix),
            (PathHead::Root, _) => None,
            (PathHead::Name, _) => Some(Placement::BelowBase),
        }
    }
}

fn to_lower(letter: u8) -> (lowered: u8)
    ensures
        lowered == lower(letter),
{
    if 0x41 <= letter && letter <= 0x5a {
        letter + 0x20
    } else {
        letter
    }
}

/// Decides where a path belongs.
pub fn place_path(absolute: bool, path: PathHead, base: PathHead) -> (placement: Result<
    Placement,
    SourceContextUnavailable,
>)
    ensures
        match placement {
            Ok(placement) => placement_of(absolute, path, base) == Some(placement),
            Err(_) => placement_of(absolute, path, base) is None,
        },
{
    if absolute {
        return Ok(Placement::AsGiven);
    }
    match path {
        PathHead::Drive(drive) => match base {
            PathHead::Drive(base_drive) => if to_lower(drive) == to_lower(base_drive) {
                Ok(Placement::TailBelowBase)
            } else {
                Err(SourceContextUnavailable)
            },
            _ => Err(SourceContextUnavailable),
        },
        PathHead::OtherPrefix => Err(SourceContextUnavailable),
        PathHead::Root => match base {
            PathHead::Drive(_) => Ok(Placement::BehindBasePrefix),
            PathHead::OtherPrefix => Ok(Placement::BehindBasePrefix),
            _ => Err(SourceContextUnavailable),
        },
        PathHead::Name => Ok(Placement::BelowBase),
    }
}

} // verus!
