//! The error taxonomy of the ingestion pipeline.

use vstd::prelude::*;

verus! {

/// Everything that can go wrong while fetching, transforming or
/// storing a swap record.  Record-level variants never abort a batch;
/// pass-level variants abort only the current pass iteration.
#[derive(Debug, Clone, PartialEq, Eq)]
pub enum TransactionError {
    MissingInCoin,
    MissingAssetName,
    CoinNotFound(String),
    PriceFetchError(String),
    MissingTxId,
    MissingInData,
    MissingOutData,
    StorageError(String),
    ApiError(String),
    FileError(String),
    ProcessingError(String),
    DatabaseError(String),
}

/// The human-readable text of each error.
pub open spec fn spec_message(e: TransactionError) -> Seq<char> {
    match e {
        TransactionError::MissingInCoin => "Missing in_coin"@,
        TransactionError::MissingAssetName => "Error parsing asset name"@,
        TransactionError::CoinNotFound(c) => "Coin not found: "@ + c@,
        TransactionError::PriceFetchError(c) => "Price fetch failed for: "@ + c@,
        TransactionError::MissingTxId => "Missing or invalid TxId"@,
        TransactionError::MissingInData => "No In Data Found"@,
        TransactionError::MissingOutData => "No Out Data Found"@,
        TransactionError::StorageError(s) => "Storage error: "@ + s@,
        TransactionError::ApiError(s) => "API error: "@ + s@,
        TransactionError::FileError(s) => "File operation error: "@ + s@,
        TransactionError::ProcessingError(s) => "Processing error: "@ + s@,
        TransactionError::DatabaseError(s) => "Database connection error: "@ + s@,
    }
}

impl TransactionError {
    /// Renders the error for logs.
    pub fn message(&self) -> (r: String)
        ensures
            r@ == spec_message(*self),
    {
        match self {
            TransactionError::MissingInCoin => String::from_str("Missing in_coin"),
            TransactionError::MissingAssetName => String::from_str("Error parsing asset name"),
            TransactionError::CoinNotFound(c) => {
                let mut r = String::from_str("Coin not found: ");
                r.append(c.as_str());
                r
            },
            TransactionError::PriceFetchError(c) => {
                let mut r = String::from_str("Price fetch failed for: ");
                r.append(c.as_str());
                r
            },
            TransactionError::MissingTxId => String::from_str("Missing or invalid TxId"),
            TransactionError::MissingInData => String::from_str("No In Data Found"),
            TransactionError::MissingOutData => String::from_str("No Out Data Found"),
            TransactionError::StorageError(s) => {
                let mut r = String::from_str("Storage error: ");
                r.append(s.as_str());
                r
            },
            TransactionError::ApiError(s) => {
                let mut r = String::from_str("API error: ");
                r.append(s.as_str());
                r
            },
            TransactionError::FileError(s) => {
                let mut r = String::from_str("File operation error: ");
                r.append(s.as_str());
                r
            },
            TransactionError::ProcessingError(s) => {
                let mut r = String::from_str("Processing error: ");
                r.append(s.as_str());
                r
            },
            TransactionError::DatabaseError(s) => {
                let mut r = String::from_str("Database connection error: ");
                r.append(s.as_str());
                r
            },
        }
    }
}

} // verus!
