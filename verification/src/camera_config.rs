//! P2Pro camera configuration: the commands of the camera and the meaning of
//! its replies.

use crate::bytes::{be16, be16_value};
use crate::exchange::{ConfigError, Exchange};
use crate::transport::{
    bytes_read, law_long_read_fetches_its_length, law_read_fetches_its_length, long_read,
    long_read_plan, long_write, long_write_plan, read_plan, standard_read, standard_write,
    write_plan,
};
use vstd::prelude::*;
use vstd::utf8::{decode_utf8, valid_utf8};

verus! {

/// Command code flag selecting the SET (write) direction.
pub const SET_FLAG: u16 = 0x4000;

/// Resets the camera to ROM settings.
pub const CMD_RESET_TO_ROM: u16 = 0x0805;

/// Accesses device memory / SPI flash.
pub const CMD_SPI_TRANSFER: u16 = 0x8201;

/// Reads a device information item.
pub const CMD_DEVICE_INFO: u16 = 0x8405;

/// Accesses the palette.
pub const CMD_PALETTE: u16 = 0x8409;

/// Reads the shutter-related reference value.
pub const CMD_SHUTTER_VTEMP: u16 = 0x840C;

/// Accesses a temperature measurement parameter.
pub const CMD_TPD: u16 = 0x8514;

/// Reads the current temperature-related raw value.
pub const CMD_CURRENT_VTEMP: u16 = 0x8B0D;

/// Starts the preview.
pub const CMD_PREVIEW_START: u16 = 0xC10F;

/// Stops the preview.
pub const CMD_PREVIEW_STOP: u16 = 0x020F;

/// Starts the Y16 preview.
pub const CMD_Y16_PREVIEW_START: u16 = 0x010A;

/// Stops the Y16 preview.
pub const CMD_Y16_PREVIEW_STOP: u16 = 0x020A;

/// Default preview path selector for the palette commands.
pub const PREVIEW_PATH_DEFAULT: u32 = 0;

/// Pseudo-colour palettes for the preview half-frame.
///
/// The palette affects only the pseudo-colour half-frame;
/// the radiometric half-frame is unaffected.
#[derive(Debug, Clone, Copy, PartialEq, Eq, Structural)]
pub enum Palette {
    WhiteHot,
    IronRed,
    Rainbow1,
    Rainbow2,
    Rainbow3,
    RedHot,
    HotRed,
    Rainbow4,
    Rainbow5,
    BlackHot,
}

impl Palette {
    /// The ID of the palette in the camera's commands.
    pub open spec fn spec_id(self) -> u8 {
        match self {
            Palette::WhiteHot => 1,
            Palette::IronRed => 3,
            Palette::Rainbow1 => 4,
            Palette::Rainbow2 => 5,
            Palette::Rainbow3 => 6,
            Palette::RedHot => 7,
            Palette::HotRed => 8,
            Palette::Rainbow4 => 9,
            Palette::Rainbow5 => 10,
            Palette::BlackHot => 11,
        }
    }

    /// The ID of the palette in the camera's commands.
    pub fn id(self) -> (r: u8)
        ensures
            r == self.spec_id(),
    {
        match self {
            Palette::WhiteHot => 1,
            Palette::IronRed => 3,
            Palette::Rainbow1 => 4,
            Palette::Rainbow2 => 5,
            Palette::Rainbow3 => 6,
            Palette::RedHot => 7,
            Palette::HotRed => 8,
            Palette::Rainbow4 => 9,
            Palette::Rainbow5 => 10,
            Palette::BlackHot => 11,
        }
    }

    /// The palette with the given ID. The ID 2 is reserved.
    pub fn try_from(id: u8) -> (r: Result<Palette, ConfigError>)
        ensures
            r is Ok <==> id == 1 || 3 <= id <= 11,
            r matches Ok(palette) ==> palette.spec_id() == id,
            r matches Err(e) ==> e == ConfigError::UnknownPalette(id),
    {
        match id {
            1 => Ok(Palette::WhiteHot),
            3 => Ok(Palette::IronRed),
            4 => Ok(Palette::Rainbow1),
            5 => Ok(Palette::Rainbow2),
            6 => Ok(Palette::Rainbow3),
            7 => Ok(Palette::RedHot),
            8 => Ok(Palette::HotRed),
            9 => Ok(Palette::Rainbow4),
            10 => Ok(Palette::Rainbow5),
            11 => Ok(Palette::BlackHot),
            _ => Err(ConfigError::UnknownPalette(id)),
        }
    }
}

/// No two palettes share an ID: the palette that is read back is the one that
/// was set.
pub proof fn law_palette_ids_are_distinct(a: Palette, b: Palette)
    requires
        a.spec_id() == b.spec_id(),
    ensures
        a == b,
{
}

/// Device information item selector for [`CameraConfig::device_info`].
#[derive(Debug, Clone, Copy, PartialEq, Eq, Structural)]
pub enum DeviceInfoItem {
    ChipId,
    FirmwareCompileDate,
    DeviceQualification,
    IrSensorInfo,
    ProjectInfo,
    FirmwareBuildVersion,
    PartNumber,
    SerialNumber,
    SensorId,
}

impl DeviceInfoItem {
    /// The index of the item in the camera's table.
    pub open spec fn spec_index(self) -> u32 {
        match self {
            DeviceInfoItem::ChipId => 0,
            DeviceInfoItem::FirmwareCompileDate => 1,
            DeviceInfoItem::DeviceQualification => 2,
            DeviceInfoItem::IrSensorInfo => 3,
            DeviceInfoItem::ProjectInfo => 4,
            DeviceInfoItem::FirmwareBuildVersion => 5,
            DeviceInfoItem::PartNumber => 6,
            DeviceInfoItem::SerialNumber => 7,
            DeviceInfoItem::SensorId => 8,
        }
    }

    /// The length of the item in bytes.
    pub open spec fn spec_len(self) -> usize {
        match self {
            DeviceInfoItem::ChipId => 8,
            DeviceInfoItem::FirmwareCompileDate => 8,
            DeviceInfoItem::DeviceQualification => 8,
            DeviceInfoItem::IrSensorInfo => 26,
            DeviceInfoItem::ProjectInfo => 4,
            DeviceInfoItem::FirmwareBuildVersion => 50,
            DeviceInfoItem::PartNumber => 48,
            DeviceInfoItem::SerialNumber => 16,
            DeviceInfoItem::SensorId => 4,
        }
    }

    /// The name of the item.
    pub open spec fn spec_name(self) -> Seq<char> {
        match self {
            DeviceInfoItem::ChipId => "ChipId"@,
            DeviceInfoItem::FirmwareCompileDate => "FirmwareCompileDate"@,
            DeviceInfoItem::DeviceQualification => "DeviceQualification"@,
            DeviceInfoItem::IrSensorInfo => "IrSensorInfo"@,
            DeviceInfoItem::ProjectInfo => "ProjectInfo"@,
            DeviceInfoItem::FirmwareBuildVersion => "FirmwareBuildVersion"@,
            DeviceInfoItem::PartNumber => "PartNumber"@,
            DeviceInfoItem::SerialNumber => "SerialNumber"@,
            DeviceInfoItem::SensorId => "SensorId"@,
        }
    }

    /// Item index sent in the command parameter field.
    pub fn item_index(self) -> (r: u32)
        ensures
            r == self.spec_index(),
    {
        match self {
            DeviceInfoItem::ChipId => 0,
            DeviceInfoItem::FirmwareCompileDate => 1,
            DeviceInfoItem::DeviceQualification => 2,
            DeviceInfoItem::IrSensorInfo => 3,
            DeviceInfoItem::ProjectInfo => 4,
            DeviceInfoItem::FirmwareBuildVersion => 5,
            DeviceInfoItem::PartNumber => 6,
            DeviceInfoItem::SerialNumber => 7,
            DeviceInfoItem::SensorId => 8,
        }
    }

    /// Fixed response length in bytes.
    pub fn response_len(self) -> (r: usize)
        ensures
            r == self.spec_len(),
    {
        match self {
            DeviceInfoItem::ChipId
            | DeviceInfoItem::FirmwareCompileDate
            | DeviceInfoItem::DeviceQualification => 8,
            DeviceInfoItem::IrSensorInfo => 26,
            DeviceInfoItem::ProjectInfo | DeviceInfoItem::SensorId => 4,
            DeviceInfoItem::FirmwareBuildVersion => 50,
            DeviceInfoItem::PartNumber => 48,
            DeviceInfoItem::SerialNumber => 16,
        }
    }

    /// The name of the item.
    pub fn name(self) -> (r: &'static str)
        ensures
            r@ == self.spec_name(),
    {
        match self {
            DeviceInfoItem::ChipId => "ChipId",
            DeviceInfoItem::FirmwareCompileDate => "FirmwareCompileDate",
            DeviceInfoItem::DeviceQualification => "DeviceQualification",
            DeviceInfoItem::IrSensorInfo => "IrSensorInfo",
            DeviceInfoItem::ProjectInfo => "ProjectInfo",
            DeviceInfoItem::FirmwareBuildVersion => "FirmwareBuildVersion",
            DeviceInfoItem::PartNumber => "PartNumber",
            DeviceInfoItem::SerialNumber => "SerialNumber",
            DeviceInfoItem::SensorId => "SensorId",
        }
    }
}

/// Temperature measurement parameter (TPD) selector.
#[derive(Debug, Clone, Copy, PartialEq, Eq, Structural)]
pub enum TpdParam {
    /// Object distance, in 1/163.835 m.
    Distance,
    /// Apparent reflected background temperature, in K.
    ReflectedTemperature,
    /// Temperature of the intervening atmosphere, in K.
    AtmosphericTemperature,
    /// Object emissivity, in 1/127.
    Emissivity,
    /// Atmospheric transmission coefficient, in 1/127.
    AtmosphericTransmittance,
    /// Measurement range: 0 for low gain, 1 for high gain.
    GainSelect,
}

impl TpdParam {
    /// The index of the parameter in the camera's table.
    pub open spec fn spec_index(self) -> u16 {
        match self {
            TpdParam::Distance => 0,
            TpdParam::ReflectedTemperature => 1,
            TpdParam::AtmosphericTemperature => 2,
            TpdParam::Emissivity => 3,
            TpdParam::AtmosphericTransmittance => 4,
            TpdParam::GainSelect => 5,
        }
    }

    /// Parameter index sent in the command header.
    pub fn index(self) -> (r: u16)
        ensures
            r == self.spec_index(),
    {
        match self {
            TpdParam::Distance => 0,
            TpdParam::ReflectedTemperature => 1,
            TpdParam::AtmosphericTemperature => 2,
            TpdParam::Emissivity => 3,
            TpdParam::AtmosphericTransmittance => 4,
            TpdParam::GainSelect => 5,
        }
    }
}

/// `String::from_utf8`: succeeds exactly on valid UTF-8, and then gives the
/// characters that the bytes encode.
#[verifier::external_body]
fn text_from_utf8(bytes: Vec<u8>) -> (r: Option<String>)
    ensures
        r is Some <==> valid_utf8(bytes@),
        r matches Some(s) ==> s@ == decode_utf8(bytes@),
{
    String::from_utf8(bytes).ok()
}

/// The bytes before the first NUL.
pub open spec fn before_nul(raw: Seq<u8>) -> Seq<u8>
    decreases raw.len(),
{
    if raw.len() == 0 || raw[0] == 0 {
        Seq::empty()
    } else {
        seq![raw[0]] + before_nul(raw.skip(1))
    }
}

/// The text of a reply in the summary: empty if it is not text.
pub open spec fn text_or_empty(raw: Seq<u8>) -> Seq<char> {
    if valid_utf8(raw) {
        decode_utf8(raw)
    } else {
        Seq::empty()
    }
}

/// The items of the device information summary, in order: all there are.
pub open spec fn summary_item(i: int) -> DeviceInfoItem {
    if i == 0 {
        DeviceInfoItem::DeviceQualification
    } else if i == 1 {
        DeviceInfoItem::FirmwareBuildVersion
    } else if i == 2 {
        DeviceInfoItem::FirmwareCompileDate
    } else if i == 3 {
        DeviceInfoItem::PartNumber
    } else if i == 4 {
        DeviceInfoItem::SerialNumber
    } else if i == 5 {
        DeviceInfoItem::ChipId
    } else if i == 6 {
        DeviceInfoItem::IrSensorInfo
    } else if i == 7 {
        DeviceInfoItem::ProjectInfo
    } else {
        DeviceInfoItem::SensorId
    }
}

/// The line of an item in the summary.
pub open spec fn summary_line(item: DeviceInfoItem, raw: Seq<u8>) -> Seq<char> {
    item.spec_name() + ": "@ + text_or_empty(raw)
}

/// Every item has its place in the summary, and only one.
pub proof fn law_summary_has_every_item_once(item: DeviceInfoItem)
    ensures
        exists|i: int| 0 <= i < 9 && #[trigger] summary_item(i) == item,
        forall|i: int, j: int|
            0 <= i < 9 && 0 <= j < 9 && #[trigger] summary_item(i) == item
                && #[trigger] summary_item(j) == item ==> i == j,
{
    let i = match item {
        DeviceInfoItem::DeviceQualification => 0int,
        DeviceInfoItem::FirmwareBuildVersion => 1,
        DeviceInfoItem::FirmwareCompileDate => 2,
        DeviceInfoItem::PartNumber => 3,
        DeviceInfoItem::SerialNumber => 4,
        DeviceInfoItem::ChipId => 5,
        DeviceInfoItem::IrSensorInfo => 6,
        DeviceInfoItem::ProjectInfo => 7,
        DeviceInfoItem::SensorId => 8,
    };
    assert(summary_item(i) == item);
}

/// The number of replies among the first `n` that there are.
pub open spec fn answered(replies: Seq<Option<Vec<u8>>>, n: nat) -> nat
    decreases n,
{
    if n == 0 {
        0
    } else {
        answered(replies, (n - 1) as nat) + if replies[n - 1] is Some {
            1nat
        } else {
            0
        }
    }
}

/// The summary has exactly one line for each item that could be read, and
/// none for the others: the line of an item stands behind those of the items
/// before it that could be read. A failed read costs only its own line.
pub proof fn law_summary_has_a_line_per_answer(replies: Seq<Option<Vec<u8>>>, n: nat)
    requires
        replies.len() == 9,
        n <= 9,
    ensures
        summary_lines(replies, n).len() == answered(replies, n),
        forall|i: int|
            0 <= i < n && (#[trigger] replies[i]) is Some ==> {
                &&& answered(replies, i as nat) < summary_lines(replies, n).len()
                &&& summary_lines(replies, n)[answered(replies, i as nat) as int] == summary_line(
                    summary_item(i),
                    replies[i]->0@,
                )
            },
    decreases n,
{
    if n > 0 {
        law_summary_has_a_line_per_answer(replies, (n - 1) as nat);
    }
}

/// The lines of the summary for the first `n` items: one for each item that
/// could be read.
pub open spec fn summary_lines(replies: Seq<Option<Vec<u8>>>, n: nat) -> Seq<Seq<char>>
    decreases n,
{
    if n == 0 {
        Seq::empty()
    } else {
        let rest = summary_lines(replies, (n - 1) as nat);
        match replies[n - 1] {
            Some(raw) => rest.push(summary_line(summary_item(n - 1), raw@)),
            None => rest,
        }
    }
}

/// The P2Pro's configuration commands. Each is an [`Exchange`] that is yet to
/// be run; what a query brings is read by the function of that name that ends
/// in `_reply`.
#[derive(Debug)]
pub struct CameraConfig {}

impl CameraConfig {
    /// Reset the device to ROM settings.
    ///
    /// Maintenance operation only: the device re-enumerates afterwards and
    /// its handle must be discarded.
    pub fn reset_to_rom() -> (r: Exchange)
        ensures
            r.starts(write_plan(CMD_RESET_TO_ROM, 0, false, Seq::empty())),
    {
        CameraConfig::bare(CMD_RESET_TO_ROM)
    }

    fn bare(code: u16) -> (r: Exchange)
        ensures
            r.starts(write_plan(code, 0, false, Seq::empty())),
    {
        let none: [u8; 0] = [];
        assert(none@ =~= Seq::empty());
        Exchange::new(standard_write(code, 0, false, &none))
    }

    /// Read a raw device information item.
    pub fn device_info(item: DeviceInfoItem) -> (r: Exchange)
        ensures
            r.starts(
                read_plan(CMD_DEVICE_INFO, item.spec_index(), false, item.spec_len() as int),
            ),
            bytes_read(r.plan()) == item.spec_len(),
    {
        proof {
            law_read_fetches_its_length(
                CMD_DEVICE_INFO,
                item.spec_index(),
                false,
                item.spec_len() as nat,
            );
        }
        Exchange::new(
            standard_read(CMD_DEVICE_INFO, item.item_index(), false, item.response_len()),
        )
    }

    /// The text of a device information item, without its NUL padding.
    pub fn device_info_string(raw: &[u8]) -> (r: Result<String, ConfigError>)
        ensures
            r is Ok <==> valid_utf8(before_nul(raw@)),
            r matches Ok(s) ==> s@ == decode_utf8(before_nul(raw@)),
            r matches Err(e) ==> e == ConfigError::NotUtf8,
    {
        let mut text: Vec<u8> = Vec::new();
        let mut i: usize = 0;
        assert(raw@.skip(0) =~= raw@);
        assert(text@ + before_nul(raw@) =~= before_nul(raw@));
        while i < raw.len() && raw[i] != 0
            invariant
                i <= raw@.len(),
                text@ + before_nul(raw@.skip(i as int)) == before_nul(raw@),
            decreases raw.len() - i,
        {
            let ghost rest = raw@.skip(i as int);
            assert(rest.skip(1) =~= raw@.skip(i + 1));
            assert(text@ + (seq![rest[0]] + before_nul(rest.skip(1))) =~= text@.push(rest[0])
                + before_nul(rest.skip(1)));
            text.push(raw[i]);
            i += 1;
        }
        assert(text@ =~= before_nul(raw@));
        match text_from_utf8(text) {
            Some(s) => Ok(s),
            None => Err(ConfigError::NotUtf8),
        }
    }

    /// The items that make up the summary of [`Self::device_info_summary`].
    pub fn summary_items() -> (r: [DeviceInfoItem; 9])
        ensures
            forall|i: int| 0 <= i < 9 ==> #[trigger] r@[i] == summary_item(i),
    {
        [
            DeviceInfoItem::DeviceQualification,
            DeviceInfoItem::FirmwareBuildVersion,
            DeviceInfoItem::FirmwareCompileDate,
            DeviceInfoItem::PartNumber,
            DeviceInfoItem::SerialNumber,
            DeviceInfoItem::ChipId,
            DeviceInfoItem::IrSensorInfo,
            DeviceInfoItem::ProjectInfo,
            DeviceInfoItem::SensorId,
        ]
    }

    /// A summary of all available device information items, from the replies to the queries
    /// of the [`Self::summary_items`]. An item that could not be read is left
    /// out.
    pub fn device_info_summary(replies: &[Option<Vec<u8>>]) -> (r: Vec<String>)
        requires
            replies@.len() == 9,
        ensures
            r@.map_values(|s: String| s@) == summary_lines(replies@, 9),
    {
        let items = CameraConfig::summary_items();
        let mut summary: Vec<String> = Vec::new();
        let mut i: usize = 0;
        assert(summary@.map_values(|s: String| s@) =~= Seq::empty());
        while i < 9
            invariant
                i <= 9,
                replies@.len() == 9,
                forall|k: int| 0 <= k < 9 ==> #[trigger] items@[k] == summary_item(k),
                summary@.map_values(|s: String| s@) == summary_lines(replies@, i as nat),
            decreases 9 - i,
        {
            if let Some(raw) = &replies[i] {
                let mut copy: Vec<u8> = Vec::new();
                copy.extend_from_slice(raw.as_slice());
                assert(copy@ =~= raw@);
                assert(items@[i as int] == summary_item(i as int));
                let mut line = items[i].name().to_owned();
                line.append(": ");
                match text_from_utf8(copy) {
                    Some(text) => line.append(text.as_str()),
                    None => {
                        assert(line@ + Seq::<char>::empty() =~= line@);
                    },
                }
                let ghost before = summary@;
                summary.push(line);
                assert(summary@.map_values(|s: String| s@) =~= before.map_values(
                    |s: String| s@,
                ).push(line@));
            }
            i += 1;
        }
        summary
    }

    /// Select the pseudo-colour palette of the default preview path.
    pub fn set_palette(palette: Palette) -> (r: Exchange)
        ensures
            r.starts(
                write_plan(0xC409, PREVIEW_PATH_DEFAULT, false, seq![palette.spec_id()]),
            ),
    {
        assert(0x8409u16 | 0x4000u16 == 0xC409u16) by (bit_vector);
        let payload: [u8; 1] = [palette.id()];
        assert(payload@ =~= seq![palette.spec_id()]);
        Exchange::new(
            standard_write(CMD_PALETTE | SET_FLAG, PREVIEW_PATH_DEFAULT, false, &payload),
        )
    }

    /// Query the palette of the default preview path.
    pub fn palette() -> (r: Exchange)
        ensures
            r.starts(read_plan(CMD_PALETTE, PREVIEW_PATH_DEFAULT, false, 1)),
            bytes_read(r.plan()) == 1,
    {
        proof {
            law_read_fetches_its_length(CMD_PALETTE, PREVIEW_PATH_DEFAULT, false, 1);
        }
        Exchange::new(standard_read(CMD_PALETTE, PREVIEW_PATH_DEFAULT, false, 1))
    }

    /// The palette that a query brought.
    pub fn palette_reply(data: &[u8]) -> (r: Result<Palette, ConfigError>)
        ensures
            r is Ok <==> data@.len() > 0 && (data@[0] == 1 || 3 <= data@[0] <= 11),
            r matches Ok(palette) ==> palette.spec_id() == data@[0],
            r matches Err(e) ==> e == if data@.len() == 0 {
                ConfigError::EmptyPalette
            } else {
                ConfigError::UnknownPalette(data@[0])
            },
    {
        if data.len() == 0 {
            return Err(ConfigError::EmptyPalette);
        }
        Palette::try_from(data[0])
    }

    /// Read the shutter-related reference value.
    pub fn shutter_vtemp() -> (r: Exchange)
        ensures
            r.starts(read_plan(CMD_SHUTTER_VTEMP, 0, false, 2)),
            bytes_read(r.plan()) == 2,
    {
        proof {
            law_read_fetches_its_length(CMD_SHUTTER_VTEMP, 0, false, 2);
        }
        Exchange::new(standard_read(CMD_SHUTTER_VTEMP, 0, false, 2))
    }

    /// Read the current temperature-related raw value.
    pub fn current_vtemp() -> (r: Exchange)
        ensures
            r.starts(read_plan(CMD_CURRENT_VTEMP, 0, false, 2)),
            bytes_read(r.plan()) == 2,
    {
        proof {
            law_read_fetches_its_length(CMD_CURRENT_VTEMP, 0, false, 2);
        }
        Exchange::new(standard_read(CMD_CURRENT_VTEMP, 0, false, 2))
    }

    /// The value that [`Self::shutter_vtemp`] or [`Self::current_vtemp`]
    /// brought.
    pub fn vtemp_reply(data: &[u8]) -> (r: Result<u16, ConfigError>)
        ensures
            r is Ok <==> data@.len() == 2,
            r matches Ok(v) ==> be16(v) == data@,
            r matches Ok(v) ==> v == 256 * data@[0] + data@[1],
            r matches Err(e) ==> e == ConfigError::ShortValue,
    {
        if data.len() != 2 {
            return Err(ConfigError::ShortValue);
        }
        let v: u16 = be16_value(data[0], data[1]);
        assert(be16(v) =~= data@);
        Ok(v)
    }

    /// Read a TPD parameter.
    pub fn tpd_get(param: TpdParam) -> (r: Exchange)
        ensures
            r.starts(long_read_plan(CMD_TPD, param.spec_index(), 0, 2)),
            bytes_read(r.plan()) == 2,
    {
        proof {
            law_long_read_fetches_its_length(CMD_TPD, param.spec_index(), 0, 2);
        }
        Exchange::new(long_read(CMD_TPD, param.index(), 0, 2))
    }

    /// The raw value that [`Self::tpd_get`] brought.
    pub fn tpd_reply(data: &[u8]) -> (r: Result<u16, ConfigError>)
        ensures
            r is Ok <==> data@.len() == 2,
            r matches Ok(v) ==> be16(v) == data@,
            r matches Ok(v) ==> v == 256 * data@[0] + data@[1],
            r matches Err(e) ==> e == ConfigError::ShortTpd,
    {
        if data.len() != 2 {
            return Err(ConfigError::ShortTpd);
        }
        let v: u16 = be16_value(data[0], data[1]);
        assert(be16(v) =~= data@);
        Ok(v)
    }

    /// Write a raw TPD parameter value.
    ///
    /// The caller must keep the value within the parameter's range,
    /// see [`TpdParam`].
    pub fn tpd_set(param: TpdParam, value: u16) -> (r: Exchange)
        ensures
            r.starts(long_write_plan(0xC514, param.spec_index(), value as u32, 0, 0)),
    {
        assert(0x8514u16 | 0x4000u16 == 0xC514u16) by (bit_vector);
        Exchange::new(long_write(CMD_TPD | SET_FLAG, param.index(), value as u32, 0, 0))
    }

    /// Read the gain selection.
    pub fn high_gain() -> (r: Exchange)
        ensures
            r.starts(long_read_plan(CMD_TPD, 5, 0, 2)),
            bytes_read(r.plan()) == 2,
    {
        CameraConfig::tpd_get(TpdParam::GainSelect)
    }

    /// The gain selection that [`Self::high_gain`] brought:
    /// false = low gain, true = high gain.
    pub fn high_gain_reply(data: &[u8]) -> (r: Result<bool, ConfigError>)
        ensures
            r is Ok <==> data@.len() == 2,
            r matches Ok(high) ==> high == (data@ != seq![0u8, 0u8]),
            r matches Err(e) ==> e == ConfigError::ShortTpd,
    {
        match CameraConfig::tpd_reply(data) {
            Ok(v) => {
                proof {
                    assert(be16(v)[0] == data@[0] && be16(v)[1] == data@[1]);
                    if v == 0 {
                        assert(data@ =~= seq![0u8, 0u8]);
                    }
                }
                Ok(v != 0)
            },
            Err(e) => Err(e),
        }
    }

    /// Select the measurement range: false = low gain, true = high gain.
    pub fn set_high_gain(high: bool) -> (r: Exchange)
        ensures
            r.starts(
                long_write_plan(
                    0xC514,
                    5,
                    if high {
                        1
                    } else {
                        0
                    },
                    0,
                    0,
                ),
            ),
    {
        CameraConfig::tpd_set(
            TpdParam::GainSelect,
            if high {
                1
            } else {
                0
            },
        )
    }

    /// Write a payload to device memory / SPI flash.
    pub fn spi_write(address: u32, payload: &[u8]) -> (r: Exchange)
        ensures
            r.starts(write_plan(0xC201, address, true, payload@)),
    {
        assert(0x8201u16 | 0x4000u16 == 0xC201u16) by (bit_vector);
        Exchange::new(standard_write(CMD_SPI_TRANSFER | SET_FLAG, address, true, payload))
    }

    /// Read device memory / SPI flash.
    pub fn spi_read(address: u32, len: usize) -> (r: Exchange)
        ensures
            r.starts(read_plan(CMD_SPI_TRANSFER, address, true, len as int)),
            bytes_read(r.plan()) == len,
    {
        proof {
            law_read_fetches_its_length(CMD_SPI_TRANSFER, address, true, len as nat);
        }
        Exchange::new(standard_read(CMD_SPI_TRANSFER, address, true, len))
    }

    /// Start the preview.
    pub fn preview_start() -> (r: Exchange)
        ensures
            r.starts(write_plan(CMD_PREVIEW_START, 0, false, Seq::empty())),
    {
        CameraConfig::bare(CMD_PREVIEW_START)
    }

    /// Stop the preview.
    pub fn preview_stop() -> (r: Exchange)
        ensures
            r.starts(write_plan(CMD_PREVIEW_STOP, 0, false, Seq::empty())),
    {
        CameraConfig::bare(CMD_PREVIEW_STOP)
    }

    /// Start the Y16 preview.
    pub fn y16_preview_start() -> (r: Exchange)
        ensures
            r.starts(write_plan(CMD_Y16_PREVIEW_START, 0, false, Seq::empty())),
    {
        CameraConfig::bare(CMD_Y16_PREVIEW_START)
    }

    /// Stop the Y16 preview.
    pub fn y16_preview_stop() -> (r: Exchange)
        ensures
            r.starts(write_plan(CMD_Y16_PREVIEW_STOP, 0, false, Seq::empty())),
    {
        CameraConfig::bare(CMD_Y16_PREVIEW_STOP)
    }

    /// The commands that set the camera to its default configuration, to be
    /// run in order: emissivity 1.0, distance 0.2 m, high gain, white-hot
    /// palette, preview stopped.
    pub fn set_default() -> (r: Vec<Exchange>)
        ensures
            r@.len() == 5,
            r@[0].starts(long_write_plan(0xC514, 3, 127, 0, 0)),
            r@[1].starts(long_write_plan(0xC514, 0, 33, 0, 0)),
            r@[2].starts(long_write_plan(0xC514, 5, 1, 0, 0)),
            r@[3].starts(write_plan(0xC409, 0, false, seq![1u8])),
            r@[4].starts(write_plan(CMD_PREVIEW_STOP, 0, false, Seq::empty())),
    {
        let mut r: Vec<Exchange> = Vec::new();
        r.push(CameraConfig::tpd_set(TpdParam::Emissivity, 127));
        r.push(CameraConfig::tpd_set(TpdParam::Distance, 33));
        r.push(CameraConfig::set_high_gain(true));
        r.push(CameraConfig::set_palette(Palette::WhiteHot));
        r.push(CameraConfig::preview_stop());
        r
    }
}

/// The palettes and their IDs; 2 is reserved.
pub proof fn law_palette_ids()
    ensures
        Palette::WhiteHot.spec_id() == 1,
        Palette::IronRed.spec_id() == 3,
        Palette::Rainbow1.spec_id() == 4,
        Palette::Rainbow2.spec_id() == 5,
        Palette::Rainbow3.spec_id() == 6,
        Palette::RedHot.spec_id() == 7,
        Palette::HotRed.spec_id() == 8,
        Palette::Rainbow4.spec_id() == 9,
        Palette::Rainbow5.spec_id() == 10,
        Palette::BlackHot.spec_id() == 11,
{
}

/// The text of an item ends before its first NUL: what precedes it holds none,
/// and what follows it, if it is there, does not matter.
pub proof fn law_text_ends_before_the_first_nul(text: Seq<u8>, padding: Seq<u8>)
    requires
        forall|i: int| 0 <= i < text.len() ==> #[trigger] text[i] != 0,
        padding.len() == 0 || padding[0] == 0,
    ensures
        before_nul(text + padding) == text,
    decreases text.len(),
{
    let raw = text + padding;
    if text.len() == 0 {
        assert(raw =~= padding);
        assert(before_nul(raw) =~= text);
    } else {
        let rest = text.skip(1);
        assert(text[0] != 0 && raw[0] == text[0]);
        assert forall|i: int| 0 <= i < rest.len() implies #[trigger] rest[i] != 0 by {
            assert(rest[i] == text[i + 1]);
        }
        law_text_ends_before_the_first_nul(rest, padding);
        assert(raw.skip(1) =~= rest + padding);
        assert(seq![text[0]] + rest =~= text);
    }
}

/// The line of an item: its name, and behind it the text of the reply as it
/// came, or nothing if it is no text.
pub proof fn law_summary_line(item: DeviceInfoItem, raw: Seq<u8>)
    ensures
        valid_utf8(raw) ==> summary_line(item, raw) == item.spec_name() + ": "@ + decode_utf8(raw),
        !valid_utf8(raw) ==> summary_line(item, raw) == item.spec_name() + ": "@,
{
    assert(item.spec_name() + ": "@ + Seq::<char>::empty() =~= item.spec_name() + ": "@);
}

/// The number of answers before an item counts them.
pub proof fn law_answers_are_counted(replies: Seq<Option<Vec<u8>>>, n: nat)
    requires
        n < replies.len(),
    ensures
        answered(replies, 0) == 0,
        replies[n as int] is Some ==> answered(replies, n + 1) == answered(replies, n) + 1,
        replies[n as int] is None ==> answered(replies, n + 1) == answered(replies, n),
{
}

} // verus!
