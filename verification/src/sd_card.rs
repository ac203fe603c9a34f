//! The storage card at the boundary of the core: where it is mounted, what
//! the driver answered, and whether a card has to be unmounted at the end.

use vstd::prelude::*;
use vstd::string::StringSliceAdditionalSpecFns;

verus! {

/// The status with which the card driver reports success.
pub const ESP_OK: i32 = 0;

#[derive(Clone, Copy, Debug, PartialEq, Eq, Structural)]
pub enum MountError {
    /// The bus to the card could not be initialised; carries the driver's
    /// status.
    BusInit(i32),
    /// The volume could not be mounted; carries the driver's status.
    Mount(i32),
}

/// The card as a mathematical value.
pub struct Card {
    pub mount_point: Seq<char>,
    /// The driver has handed over a card that must be unmounted at the end.
    pub attached: bool,
}

/// The path can be handed to the driver: it holds no zero byte.
pub open spec fn is_c_path(path: &str) -> bool {
    forall|i: int| 0 <= i < path.spec_bytes().len() ==> path.spec_bytes()[i] != 0u8
}

/// What a mount over the memory-card bus returns for the driver's status.
pub open spec fn sdmmc_result(status: i32) -> Result<(), MountError> {
    if status == ESP_OK {
        Ok(())
    } else {
        Err(MountError::Mount(status))
    }
}

/// What a mount over the serial bus returns for the two statuses. The
/// status of the mount counts only if the bus came up.
pub open spec fn spi_result(bus_status: i32, mount_status: i32) -> Result<(), MountError> {
    if bus_status != ESP_OK {
        Err(MountError::BusInit(bus_status))
    } else if mount_status != ESP_OK {
        Err(MountError::Mount(mount_status))
    } else {
        Ok(())
    }
}

/// A storage card and the path its volume is mounted at.
pub struct SdCard {
    mount_point: String,
    attached: bool,
}

impl View for SdCard {
    type V = Card;

    closed spec fn view(&self) -> Card {
        Card { mount_point: self.mount_point@, attached: self.attached }
    }
}

impl SdCard {
    /// Whether `mpoint` can be handed to the driver as a path.
    pub fn accepts(mpoint: &str) -> (ok: bool)
        ensures
            ok == is_c_path(mpoint),
    {
        let bytes = mpoint.as_bytes();
        let mut i: usize = 0;
        while i < bytes.len()
            invariant
                i <= bytes@.len(),
                bytes@ == mpoint.spec_bytes(),
                forall|j: int| 0 <= j < i ==> bytes@[j] != 0u8,
            decreases bytes@.len() - i,
        {
            if bytes[i] == 0 {
                return false;
            }
            i = i + 1;
        }
        true
    }

    /// A card to be mounted at `mpoint`; none is attached yet.
    pub fn new(mpoint: &str) -> (card: SdCard)
        requires
            is_c_path(mpoint),
        ensures
            card@ == (Card { mount_point: mpoint@, attached: false }),
    {
        SdCard { mount_point: mpoint.to_owned(), attached: false }
    }

    pub fn mount_point(&self) -> (path: &str)
        ensures
            path@ == self@.mount_point,
    {
        self.mount_point.as_str()
    }

    /// Whether a card is attached that must be unmounted at the end.
    pub fn attached(&self) -> (attached: bool)
        ensures
            attached == self@.attached,
    {
        self.attached
    }

    /// Records the driver's status of a mount over the memory-card bus. The
    /// mount stands exactly if the status is `ESP_OK`. The card the driver
    /// made is not kept, so none is attached by this.
    pub fn mount_sdmmc(&mut self, status: i32) -> (res: Result<(), MountError>)
        ensures
            res == sdmmc_result(status),
            final(self)@ == old(self)@,
    {
        if status != ESP_OK {
            Err(MountError::Mount(status))
        } else {
            Ok(())
        }
    }

    /// Records the driver's statuses of a mount over the serial bus:
    /// `bus_status` of initialising the bus, and `mount_status` of the mount
    /// itself, which is looked at only if the bus came up. The mount stands
    /// exactly if both are `ESP_OK`, and the card is then attached.
    pub fn mount_spi(&mut self, bus_status: i32, mount_status: i32) -> (res: Result<
        (),
        MountError,
    >)
        ensures
            res == spi_result(bus_status, mount_status),
            final(self)@ == (Card {
                attached: old(self)@.attached || res.is_ok(),
                ..old(self)@
            }),
    {
        if bus_status != ESP_OK {
            Err(MountError::BusInit(bus_status))
        } else if mount_status != ESP_OK {
            Err(MountError::Mount(mount_status))
        } else {
            self.attached = true;
            Ok(())
        }
    }
}

} // verus!
