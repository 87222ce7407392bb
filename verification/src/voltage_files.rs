//! Errors that reading voltage files can give.

use crate::text::{decimal, decimal_text};
use vstd::prelude::*;
use vstd::string::StringExecFns;

verus! {

/// What can be wrong with a set of voltage files.
#[derive(Debug, Clone)]
pub enum VoltageFileError {
    /// No voltage files were supplied.
    NoVoltageFiles,
    /// A voltage file, named first, gave the error that is named second.
    VoltageFileError(String, String),
    /// The file names follow more than one naming convention.
    Mixture,
    /// A GPS time is missing from the sequence of files.
    GpsTimeMissing { expected: u64, got: u64 },
    /// The GPS times do not all have the same number of channels.
    UnevenChannelsForGpsTime { expected: u8, got: u8 },
    /// The name of the file follows no known convention.
    Unrecognised(String),
    /// The file holds no observation identifier.
    MissingObsid(String),
    /// The files differ in size.
    UnequalFileSizes,
    /// The observation identifier of the header is not that of the file
    /// names.
    MetafitsObsidMismatch,
    /// The observation identifier of a file is not that of the header.
    ObsidMismatch { obsid: u32, voltage_filename: String, voltage_obsid: u32 },
    /// The time index is empty.
    EmptyBTreeMap,
}

/// What the message of an error says.
pub open spec fn voltage_message(e: VoltageFileError) -> Seq<char> {
    match e {
        VoltageFileError::NoVoltageFiles => "No voltage files were supplied"@,
        VoltageFileError::VoltageFileError(file, error) => "Voltage file "@ + file@ + " error: "@
            + error@,
        VoltageFileError::Mixture => "There are a mixture of voltage filename types!"@,
        VoltageFileError::GpsTimeMissing { expected, got } =>
            "There are missing gps times- expected "@ + decimal_text(expected as nat) + " got "@
                + decimal_text(got as nat),
        VoltageFileError::UnevenChannelsForGpsTime { expected, got } =>
            "There are an uneven number of channel (files) across all of the gps times- expected "@
                + decimal_text(expected as nat) + " got "@ + decimal_text(got as nat),
        VoltageFileError::Unrecognised(file) =>
            "Could not identify the voltage filename structure for "@ + file@,
        VoltageFileError::MissingObsid(file) => "Failed to read OBSID from "@ + file@
            + " - is this an MWA voltage file?"@,
        VoltageFileError::UnequalFileSizes =>
            "The provided voltage files are of different sizes and this is not supported"@,
        VoltageFileError::MetafitsObsidMismatch =>
            "The provided metafits obsid does not match the provided filenames obsid."@,
        VoltageFileError::ObsidMismatch { obsid, voltage_filename, voltage_obsid } => "OBSID "@
            + decimal_text(voltage_obsid as nat) + " from "@ + voltage_filename@
            + " does not match expected value of obs_id from metafits file "@ + decimal_text(
            obsid as nat,
        ) + "\nmaybe you have a mix of different files?"@,
        VoltageFileError::EmptyBTreeMap => "Input BTreeMap was empty"@,
    }
}

impl VoltageFileError {
    /// The message of the error, for people to read.
    pub fn message(&self) -> (text: String)
        ensures
            text@ == voltage_message(*self),
    {
        match self {
            VoltageFileError::NoVoltageFiles => String::from_str("No voltage files were supplied"),
            VoltageFileError::VoltageFileError(file, error) => String::from_str(
                "Voltage file ",
            ).concat(file.as_str()).concat(" error: ").concat(error.as_str()),
            VoltageFileError::Mixture => String::from_str(
                "There are a mixture of voltage filename types!",
            ),
            VoltageFileError::GpsTimeMissing { expected, got } => String::from_str(
                "There are missing gps times- expected ",
            ).concat(decimal(*expected).as_str()).concat(" got ").concat(decimal(*got).as_str()),
            VoltageFileError::UnevenChannelsForGpsTime { expected, got } => String::from_str(
                "There are an uneven number of channel (files) across all of the gps times- expected ",
            ).concat(decimal(*expected as u64).as_str()).concat(" got ").concat(
                decimal(*got as u64).as_str(),
            ),
            VoltageFileError::Unrecognised(file) => String::from_str(
                "Could not identify the voltage filename structure for ",
            ).concat(file.as_str()),
            VoltageFileError::MissingObsid(file) => String::from_str(
                "Failed to read OBSID from ",
            ).concat(file.as_str()).concat(" - is this an MWA voltage file?"),
            VoltageFileError::UnequalFileSizes => String::from_str(
                "The provided voltage files are of different sizes and this is not supported",
            ),
            VoltageFileError::MetafitsObsidMismatch => String::from_str(
                "The provided metafits obsid does not match the provided filenames obsid.",
            ),
            VoltageFileError::ObsidMismatch { obsid, voltage_filename, voltage_obsid } =>
                String::from_str("OBSID ").concat(decimal(*voltage_obsid as u64).as_str()).concat(
                    " from ",
                ).concat(voltage_filename.as_str()).concat(
                    " does not match expected value of obs_id from metafits file ",
                ).concat(decimal(*obsid as u64).as_str()).concat(
                    "\nmaybe you have a mix of different files?",
                ),
            VoltageFileError::EmptyBTreeMap => String::from_str("Input BTreeMap was empty"),
        }
    }
}

} // verus!
