//! The encoders of one engine pull, one slot per format.
use crate::format::OutputFormat;
use vstd::prelude::*;

verus! {

/// One slot per format. A slot holds a handle and the serial number of the
/// encoder it belongs to, so that an encoder that stops gives up its own slot
/// and never that of a replacement.
#[derive(Debug)]
pub struct Slots<H> {
    adts: Option<(u64, H)>,
    mp3: Option<(u64, H)>,
    fmp4: Option<(u64, H)>,
}

/// What is left of a slot once the encoder of this serial number has given it
/// up: what a replacement put there.
pub open spec fn released<H>(slot: Option<(u64, H)>, serial: u64) -> Option<(u64, H)> {
    match slot {
        Some((s, h)) => if s == serial {
            None
        } else {
            Some((s, h))
        },
        None => None,
    }
}

impl<H> Slots<H> {
    /// What the slot of a format holds.
    pub closed spec fn at(self, fmt: OutputFormat) -> Option<(u64, H)> {
        match fmt {
            OutputFormat::Adts => self.adts,
            OutputFormat::Mp3 => self.mp3,
            OutputFormat::Fmp4 => self.fmp4,
        }
    }

    /// Whether no slot is taken.
    pub open spec fn vacant(self) -> bool {
        forall|fmt: OutputFormat| (#[trigger] self.at(fmt)) is None
    }

    /// Whether all slots but one are the same.
    pub open spec fn same_but(self, other: Slots<H>, fmt: OutputFormat) -> bool {
        forall|g: OutputFormat| g != fmt ==> #[trigger] self.at(g) == other.at(g)
    }

    pub fn new() -> (r: Self)
        ensures
            r.vacant(),
    {
        Slots { adts: None, mp3: None, fmp4: None }
    }

    /// Take the slot of a format, from whoever had it.
    pub fn register(&mut self, fmt: OutputFormat, serial: u64, handle: H)
        ensures
            final(self).at(fmt) == Some((serial, handle)),
            final(self).same_but(*old(self), fmt),
    {
        match fmt {
            OutputFormat::Adts => {
                self.adts = Some((serial, handle));
            },
            OutputFormat::Mp3 => {
                self.mp3 = Some((serial, handle));
            },
            OutputFormat::Fmp4 => {
                self.fmp4 = Some((serial, handle));
            },
        }
    }

    /// Empty the slot of a format; true if it was taken.
    pub fn remove(&mut self, fmt: OutputFormat) -> (r: bool)
        ensures
            final(self).at(fmt) is None,
            final(self).same_but(*old(self), fmt),
            r == old(self).at(fmt) is Some,
    {
        match fmt {
            OutputFormat::Adts => {
                let had: bool = self.adts.is_some();
                self.adts = None;
                had
            },
            OutputFormat::Mp3 => {
                let had: bool = self.mp3.is_some();
                self.mp3 = None;
                had
            },
            OutputFormat::Fmp4 => {
                let had: bool = self.fmp4.is_some();
                self.fmp4 = None;
                had
            },
        }
    }

    /// The serial number in the slot of a format.
    pub fn serial(&self, fmt: OutputFormat) -> (r: Option<u64>)
        ensures
            r == (match self.at(fmt) {
                Some((serial, _)) => Some(serial),
                None => None,
            }),
    {
        let slot: &Option<(u64, H)> = match fmt {
            OutputFormat::Adts => &self.adts,
            OutputFormat::Mp3 => &self.mp3,
            OutputFormat::Fmp4 => &self.fmp4,
        };
        match slot {
            Some((serial, _)) => Some(*serial),
            None => None,
        }
    }

    /// The handle in the slot of a format.
    pub fn get(&self, fmt: OutputFormat) -> (r: Option<&H>)
        ensures
            match r {
                Some(h) => self.at(fmt) matches Some((_, held)) && held == *h,
                None => self.at(fmt) is None,
            },
    {
        let slot: &Option<(u64, H)> = match fmt {
            OutputFormat::Adts => &self.adts,
            OutputFormat::Mp3 => &self.mp3,
            OutputFormat::Fmp4 => &self.fmp4,
        };
        match slot {
            Some((_, handle)) => Some(handle),
            None => None,
        }
    }

    /// Whether no slot is taken.
    pub fn is_empty(&self) -> (r: bool)
        ensures
            r == self.vacant(),
    {
        let r: bool = self.adts.is_none() && self.mp3.is_none() && self.fmp4.is_none();
        proof {
            if !r {
                assert(self.at(OutputFormat::Adts) is Some || self.at(OutputFormat::Mp3) is Some
                    || self.at(OutputFormat::Fmp4) is Some);
            }
        }
        r
    }

    /// Give up the slot of the encoder with this serial number, and no other:
    /// a replacement may already have taken it. True if no slot is taken then.
    pub fn release(&mut self, fmt: OutputFormat, serial: u64) -> (r: bool)
        ensures
            ({
                let ours = old(self).at(fmt) matches Some((s, _)) && s == serial;
                &&& ours ==> final(self).at(fmt) is None
                &&& !ours ==> final(self).at(fmt) == old(self).at(fmt)
                &&& final(self).same_but(*old(self), fmt)
            }),
            final(self).at(fmt) == released(old(self).at(fmt), serial),
            r == final(self).vacant(),
    {
        let ours: bool = match self.serial(fmt) {
            Some(s) => s == serial,
            None => false,
        };
        if ours {
            let _ = self.remove(fmt);
        }
        self.is_empty()
    }
}

} // verus!
