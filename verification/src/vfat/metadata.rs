//! Dates, times and attribute bits as FAT32 stores them in directory
//! entries.

use vstd::prelude::*;

verus! {

/// A date packed into 16 bits: bits 15-9 hold the year since 1980, bits
/// 8-5 the month, bits 4-0 the day.
#[derive(Default, Debug, Copy, Clone, PartialEq, Eq, Structural)]
pub struct Date(pub u16);

/// The calendar year a packed date denotes.
pub open spec fn spec_year(d: u16) -> int {
    1980 + ((d >> 9) & 0x7F)
}

/// The month a packed date denotes.
pub open spec fn spec_month(d: u16) -> u8 {
    (((d >> 5) & 0xF)) as u8
}

/// The day a packed date denotes.
pub open spec fn spec_day(d: u16) -> u8 {
    ((d & 0x1F)) as u8
}

impl Date {
    /// The year, counted from 1980.
    pub fn year(&self) -> (r: usize)
        ensures
            r == spec_year(self.0),
    {
        1980 + (((self.0 >> 9) & 0x7F) as usize)
    }

    /// The month field (1 to 12 on a well-formed volume).
    pub fn month(&self) -> (r: u8)
        ensures
            r == spec_month(self.0),
    {
        ((self.0 >> 5) & 0xF) as u8
    }

    /// The day field (1 to 31 on a well-formed volume).
    pub fn day(&self) -> (r: u8)
        ensures
            r == spec_day(self.0),
    {
        (self.0 & 0x1F) as u8
    }
}

/// A time of day packed into 16 bits: bits 15-11 hold the hour, bits 10-5
/// the minute, bits 4-0 the second halved.
#[derive(Default, Debug, Copy, Clone, PartialEq, Eq, Structural)]
pub struct Time(pub u16);

/// The hour a packed time denotes.
pub open spec fn spec_hour(t: u16) -> u8 {
    (((t >> 11) & 0x1F)) as u8
}

/// The minute a packed time denotes.
pub open spec fn spec_minute(t: u16) -> u8 {
    (((t >> 5) & 0x3F)) as u8
}

/// The second a packed time denotes; the stored field has a granularity
/// of two seconds.
pub open spec fn spec_second(t: u16) -> u8 {
    (((t & 0x1F) * 2)) as u8
}

impl Time {
    /// Midnight: every field zero.
    pub fn zero() -> (r: Time)
        ensures
            r.0 == 0,
    {
        Time(0)
    }

    /// The hour field.
    pub fn hour(&self) -> (r: u8)
        ensures
            r == spec_hour(self.0),
    {
        ((self.0 >> 11) & 0x1F) as u8
    }

    /// The minute field.
    pub fn minute(&self) -> (r: u8)
        ensures
            r == spec_minute(self.0),
    {
        ((self.0 >> 5) & 0x3F) as u8
    }

    /// The seconds, doubled from the stored 2-second units.
    pub fn second(&self) -> (r: u8)
        ensures
            r == spec_second(self.0),
    {
        proof {
            let t = self.0;
            assert((t & 0x1F) < 32) by (bit_vector);
        }
        ((self.0 & 0x1F) as u8) * 2
    }
}

/// The attribute bit set of a directory entry: read-only `0x01`, hidden
/// `0x02`, system `0x04`, volume id `0x08`, directory `0x10`, archive
/// `0x20`. The combination of the low four bits marks a long-filename
/// fragment rather than a real entry.
#[derive(Default, Debug, Copy, Clone, PartialEq, Eq, Structural)]
pub struct Attributes(pub u8);

/// Whether an attribute byte marks a long-filename fragment: read-only,
/// hidden, system and volume-id all set.
pub open spec fn spec_lfn(a: u8) -> bool {
    a & 0x0F == 0x0F
}

impl Attributes {
    /// The read-only bit.
    pub fn read_only(&self) -> (r: bool)
        ensures
            r == (self.0 & 0x01 != 0),
    {
        self.0 & 0x01 != 0
    }

    /// The hidden bit.
    pub fn hidden(&self) -> (r: bool)
        ensures
            r == (self.0 & 0x02 != 0),
    {
        self.0 & 0x02 != 0
    }

    /// The system bit.
    pub fn system(&self) -> (r: bool)
        ensures
            r == (self.0 & 0x04 != 0),
    {
        self.0 & 0x04 != 0
    }

    /// The volume-id bit.
    pub fn volume_id(&self) -> (r: bool)
        ensures
            r == (self.0 & 0x08 != 0),
    {
        self.0 & 0x08 != 0
    }

    /// The directory bit.
    pub fn directory(&self) -> (r: bool)
        ensures
            r == (self.0 & 0x10 != 0),
    {
        self.0 & 0x10 != 0
    }

    /// The archive bit.
    pub fn archive(&self) -> (r: bool)
        ensures
            r == (self.0 & 0x20 != 0),
    {
        self.0 & 0x20 != 0
    }

    /// Whether this byte marks a long-filename fragment.
    pub fn lfn(&self) -> (r: bool)
        ensures
            r == spec_lfn(self.0),
    {
        let r = self.0 & 0x01 != 0 && self.0 & 0x02 != 0 && self.0 & 0x04 != 0 && self.0 & 0x08
            != 0;
        proof {
            let a = self.0;
            assert((a & 0x01 != 0 && a & 0x02 != 0 && a & 0x04 != 0 && a & 0x08 != 0) == (a & 0x0F
                == 0x0F)) by (bit_vector);
        }
        r
    }
}

/// A point in time: a packed date, a packed time, and an additive field in
/// 10-millisecond units ranging over 0 to 199.
#[derive(Default, Copy, Clone, Debug, PartialEq, Eq, Structural)]
pub struct Timestamp {
    pub date: Date,
    pub time: Time,
    pub additional_in_10ms: u8,
}

/// The additive 10-millisecond field rounded to whole seconds, half away
/// from zero.
pub open spec fn spec_extra_seconds(add: u8) -> u8 {
    (((add + 50) / 100)) as u8
}

impl Timestamp {
    /// The calendar year.
    pub fn year(&self) -> (r: usize)
        ensures
            r == spec_year(self.date.0),
    {
        self.date.year()
    }

    /// The month field.
    pub fn month(&self) -> (r: u8)
        ensures
            r == spec_month(self.date.0),
    {
        self.date.month()
    }

    /// The day field.
    pub fn day(&self) -> (r: u8)
        ensures
            r == spec_day(self.date.0),
    {
        self.date.day()
    }

    /// The hour field.
    pub fn hour(&self) -> (r: u8)
        ensures
            r == spec_hour(self.time.0),
    {
        self.time.hour()
    }

    /// The minute field.
    pub fn minute(&self) -> (r: u8)
        ensures
            r == spec_minute(self.time.0),
    {
        self.time.minute()
    }

    /// The second, with the 10-millisecond additive field rounded in.
    pub fn second(&self) -> (r: u8)
        ensures
            r == spec_second(self.time.0) + spec_extra_seconds(self.additional_in_10ms),
    {
        proof {
            let t = self.time.0;
            assert((t & 0x1F) < 32) by (bit_vector);
        }
        self.time.second() + (self.additional_in_10ms / 100 + if self.additional_in_10ms % 100
            >= 50 {
            1u8
        } else {
            0u8
        })
    }
}

/// The metadata carried by one directory entry.
#[derive(Default, Debug, Copy, Clone, PartialEq, Eq, Structural)]
pub struct Metadata {
    pub attributes: Attributes,
    pub created: Timestamp,
    pub accessed: Timestamp,
    pub modified: Timestamp,
}

impl Metadata {
    /// The read-only attribute bit.
    pub fn read_only(&self) -> (r: bool)
        ensures
            r == (self.attributes.0 & 0x01 != 0),
    {
        self.attributes.read_only()
    }

    /// The hidden attribute bit.
    pub fn hidden(&self) -> (r: bool)
        ensures
            r == (self.attributes.0 & 0x02 != 0),
    {
        self.attributes.hidden()
    }

    /// The creation timestamp.
    pub fn created(&self) -> (r: Timestamp)
        ensures
            r == self.created,
    {
        self.created
    }

    /// The last-access timestamp.
    pub fn accessed(&self) -> (r: Timestamp)
        ensures
            r == self.accessed,
    {
        self.accessed
    }

    /// The last-modification timestamp.
    pub fn modified(&self) -> (r: Timestamp)
        ensures
            r == self.modified,
    {
        self.modified
    }
}

} // verus!
