use vstd::prelude::*;
use crate::settings::{Config, joined};

verus! {

/// The metadata database of a data directory.
pub open spec fn metadata_of(dkdc_dir: Seq<char>) -> Seq<char> {
    joined(joined(dkdc_dir, "dkdclake"@), "metadata.db"@)
}

/// The data directory of the lake of a data directory.
pub open spec fn data_of(dkdc_dir: Seq<char>) -> Seq<char> {
    joined(joined(dkdc_dir, "dkdclake"@), "data"@)
}

/// The SQL that opens the encrypted lake of a data directory: install the
/// two extensions, attach the metadata database and the lake over it, and
/// make the lake current.
pub open spec fn lake_sql(dkdc_dir: Seq<char>) -> Seq<char> {
    "INSTALL ducklake;\nINSTALL sqlite;\n\nATTACH '"@ + metadata_of(dkdc_dir) + "' AS metadata;\nATTACH 'ducklake:sqlite:"@
        + metadata_of(dkdc_dir) + "' AS data (DATA_PATH '"@ + data_of(dkdc_dir) + "', ENCRYPTED);\n\nUSE data;"@
}

/// The SQL that opens the lake of `config`, to run by hand in a DuckDB shell.
pub fn get_sql_commands(config: &Config) -> (r: String)
    ensures
        r@ == lake_sql(config.spec_dkdc_dir()),
{
    let metadata = config.metadata_path();
    let data = config.data_path();
    let mut out = String::from_str("INSTALL ducklake;\nINSTALL sqlite;\n\nATTACH '");
    out.append(metadata.as_str());
    out.append("' AS metadata;\nATTACH 'ducklake:sqlite:");
    out.append(metadata.as_str());
    out.append("' AS data (DATA_PATH '");
    out.append(data.as_str());
    out.append("', ENCRYPTED);\n\nUSE data;");
    out
}

} // verus!
