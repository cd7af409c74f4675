//! The records that the store holds and the values that its queries and the
//! scan hand out.

use vstd::prelude::*;

verus! {

/// A storage volume, known by its volume identity rather than its mount path.
#[derive(Debug, Clone)]
pub struct StorageDevice {
    pub id: String,
    pub label: String,
    pub mount_point: String,
    /// `hot`, `cold`, or empty while the user has assigned no tier.
    pub device_type: String,
    pub total_bytes: i64,
    pub available_bytes: i64,
    pub is_removable: bool,
    pub first_seen: String,
    pub last_seen: String,
}

/// One entry per distinct content identity.
#[derive(Debug, Clone)]
pub struct FileRecord {
    pub blake3_hash: String,
    pub file_size: i64,
    pub representative_name: String,
    pub extension: String,
    pub created_at: String,
}

/// Where a content identity was seen: one entry per (device, path).
#[derive(Debug, Clone)]
pub struct FileLocation {
    pub id: i64,
    pub blake3_hash: String,
    pub device_id: String,
    pub file_path: String,
    pub file_name: String,
    pub file_size: i64,
    pub modified_at: Option<String>,
    pub last_verified: String,
    pub scan_mode: String,
}

/// A volume as the operating system reports it.
#[derive(Debug, Clone)]
pub struct DetectedDisk {
    pub id: String,
    pub label: String,
    pub mount_point: String,
    pub total_bytes: i64,
    pub available_bytes: i64,
    pub is_removable: bool,
}

/// Copies of one content identity, counted by device tier.
#[derive(Debug, Clone)]
pub struct FileSafety {
    pub blake3_hash: String,
    pub file_size: i64,
    pub representative_name: String,
    pub total_copies: i64,
    pub hot_copies: i64,
    pub cold_copies: i64,
    pub is_safe: bool,
    pub locations: Vec<FileLocation>,
}

/// A content identity held more often than a threshold allows.
#[derive(Debug, Clone)]
pub struct WasteCandidate {
    pub blake3_hash: String,
    pub file_size: i64,
    pub representative_name: String,
    pub total_copies: i64,
    pub wasted_bytes: i64,
}

/// Totals over the whole store.
#[derive(Debug, Clone)]
pub struct DashboardStats {
    pub total_files: i64,
    pub total_locations: i64,
    pub unsafe_files: i64,
    pub total_devices: i64,
    pub total_size_bytes: i64,
}

/// One entry of a directory listing.
#[derive(Debug, Clone)]
pub struct DirEntry {
    pub name: String,
    pub is_dir: bool,
    pub size: i64,
    pub modified: Option<String>,
}

/// What a scan reports, in order: `Started`, then any of `Progress`,
/// `FileHashed` and `Error`, then one of `Finished`, `Cancelled` or `Error`.
#[derive(Debug, Clone)]
pub enum ScanEvent {
    Started { total_files: u64 },
    Progress { scanned: u64, total: u64 },
    FileHashed { path: String, hash: String },
    Finished { scanned: u64, hashed: u64, added: u64, removed: u64 },
    Error { message: String },
    Cancelled,
}

/// Failures of the library's operations, each with its message.
#[derive(Debug, Clone)]
pub enum AppError {
    Db(String),
    Io(String),
    Migrate(String),
    General(String),
}

/// A copy of an optional text.
pub fn copy_opt(s: &Option<String>) -> (r: Option<String>)
    ensures
        r == *s,
{
    match s {
        Some(t) => Some(t.clone()),
        None => None,
    }
}

impl FileLocation {
    /// A field-by-field copy.
    pub fn duplicate(&self) -> (r: FileLocation)
        ensures
            r == *self,
    {
        FileLocation {
            id: self.id,
            blake3_hash: self.blake3_hash.clone(),
            device_id: self.device_id.clone(),
            file_path: self.file_path.clone(),
            file_name: self.file_name.clone(),
            file_size: self.file_size,
            modified_at: copy_opt(&self.modified_at),
            last_verified: self.last_verified.clone(),
            scan_mode: self.scan_mode.clone(),
        }
    }
}

impl StorageDevice {
    /// A field-by-field copy.
    pub fn duplicate(&self) -> (r: StorageDevice)
        ensures
            r == *self,
    {
        StorageDevice {
            id: self.id.clone(),
            label: self.label.clone(),
            mount_point: self.mount_point.clone(),
            device_type: self.device_type.clone(),
            total_bytes: self.total_bytes,
            available_bytes: self.available_bytes,
            is_removable: self.is_removable,
            first_seen: self.first_seen.clone(),
            last_seen: self.last_seen.clone(),
        }
    }
}

impl AppError {
    /// The message as a user sees it.
    pub fn message(&self) -> (r: String)
        ensures
            match self {
                AppError::Db(m) => r@ == "Database error: "@ + m@,
                AppError::Io(m) => r@ == "IO error: "@ + m@,
                AppError::Migrate(m) => r@ == "Migrate error: "@ + m@,
                AppError::General(m) => r@ == m@,
            },
    {
        match self {
            AppError::Db(m) => {
                let mut s = String::from_str("Database error: ");
                s.append(m.as_str());
                s
            },
            AppError::Io(m) => {
                let mut s = String::from_str("IO error: ");
                s.append(m.as_str());
                s
            },
            AppError::Migrate(m) => {
                let mut s = String::from_str("Migrate error: ");
                s.append(m.as_str());
                s
            },
            AppError::General(m) => m.clone(),
        }
    }
}

} // verus!
