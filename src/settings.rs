use vstd::prelude::*;

verus! {

/// The `[general]` section of the settings file.
pub struct GeneralConfig {
    pub editor: String,
}

/// The `[dev]` section of the settings file: extra packages for the
/// development environment.
pub struct DevConfig {
    pub packages: Vec<String>,
}

/// The settings file.
pub struct ConfigFile {
    pub general: GeneralConfig,
    pub dev: DevConfig,
}

/// What became of an attempt to read the settings file.
pub enum ConfigFileRead {
    /// There is no settings file.
    Missing,
    /// It exists but could not be read or parsed.
    Invalid,
    /// It was read and parsed.
    Parsed(ConfigFile),
}

/// Where the tool keeps its data, and the settings read from disk, if any.
pub struct Config {
    dkdc_dir: String,
    config_file: Option<ConfigFile>,
}

/// `base` followed by the relative path `part`, with one separator between.
pub open spec fn joined(base: Seq<char>, part: Seq<char>) -> Seq<char> {
    if base.len() == 0 || base.last() == '/' {
        base + part
    } else {
        base + seq!['/'] + part
    }
}

/// Appends the relative path `part` to `base`, as a path join does.
pub fn join_path(base: &str, part: &str) -> (r: String)
    ensures
        r@ == joined(base@, part@),
{
    let n = base.unicode_len();
    let mut r = String::from_str(base);
    if n > 0 && base.get_char(n - 1) != '/' {
        r.append("/");
        proof {
            reveal_strlit("/");
        }
    }
    r.append(part);
    proof {
        if n > 0 && base@.last() != '/' {
            assert(r@ =~= base@ + seq!['/'] + part@);
        }
    }
    r
}

impl GeneralConfig {
    /// General settings that name the given editor.
    pub fn with_editor(editor: &str) -> (g: GeneralConfig)
        ensures
            g.editor@ == editor@,
    {
        GeneralConfig { editor: String::from_str(editor) }
    }
}

impl DevConfig {
    /// No extra packages.
    pub fn new() -> (d: DevConfig)
        ensures
            d.packages@.len() == 0,
    {
        DevConfig { packages: Vec::new() }
    }
}

impl ConfigFile {
    /// The settings used when the file gives none: the given editor and no
    /// extra packages.
    pub fn with_editor(editor: &str) -> (f: ConfigFile)
        ensures
            f.general.editor@ == editor@,
            f.dev.packages@.len() == 0,
    {
        ConfigFile { general: GeneralConfig::with_editor(editor), dev: DevConfig::new() }
    }

    /// A field-by-field copy.
    pub fn copy(&self) -> (f: ConfigFile)
        ensures
            f.general.editor@ == self.general.editor@,
            f.dev.packages@.map_values(|p: String| p@) == self.dev.packages@.map_values(|p: String| p@),
    {
        let mut packages: Vec<String> = Vec::new();
        let mut i: usize = 0;
        while i < self.dev.packages.len()
            invariant
                i <= self.dev.packages@.len(),
                packages@.len() == i,
                forall|j: int| 0 <= j < i ==> packages@[j]@ == self.dev.packages@[j]@,
            decreases self.dev.packages@.len() - i,
        {
            packages.push(self.dev.packages[i].clone());
            i = i + 1;
        }
        assert(packages@.map_values(|p: String| p@) =~= self.dev.packages@.map_values(|p: String| p@));
        ConfigFile {
            general: GeneralConfig { editor: self.general.editor.clone() },
            dev: DevConfig { packages },
        }
    }
}

impl Config {
    /// The data directory.
    pub closed spec fn spec_dkdc_dir(&self) -> Seq<char> {
        self.dkdc_dir@
    }

    /// The settings held, if a settings file has been taken in.
    pub closed spec fn spec_config_file(&self) -> Option<&ConfigFile> {
        match &self.config_file {
            Some(f) => Some(f),
            None => None,
        }
    }

    /// The configuration of a user whose home directory is `home`: the data
    /// directory is `.dkdc` under it.
    pub fn new(home: &str) -> (c: Config)
        ensures
            c.spec_dkdc_dir() == joined(home@, ".dkdc"@),
            c.spec_config_file() is None,
    {
        Config { dkdc_dir: join_path(home, ".dkdc"), config_file: None }
    }

    /// A configuration rooted at `dkdc_dir`, holding no settings yet.
    pub fn from_path(dkdc_dir: String) -> (c: Config)
        ensures
            c.spec_dkdc_dir() == dkdc_dir@,
            c.spec_config_file() is None,
    {
        Config { dkdc_dir, config_file: None }
    }

    /// Takes in the result of reading the settings file: parsed settings
    /// replace what was held, an unreadable file gives the defaults, and a
    /// missing file changes nothing.
    pub fn reload_config_file(&mut self, read: ConfigFileRead, default_editor: &str)
        ensures
            final(self).spec_dkdc_dir() == old(self).spec_dkdc_dir(),
            match read {
                ConfigFileRead::Missing => final(self).spec_config_file() == old(self).spec_config_file(),
                ConfigFileRead::Invalid => final(self).spec_config_file() is Some
                    && final(self).spec_config_file()->Some_0.general.editor@ == default_editor@
                    && final(self).spec_config_file()->Some_0.dev.packages@.len() == 0,
                ConfigFileRead::Parsed(f) => final(self).spec_config_file() == Some(&f),
            },
    {
        match read {
            ConfigFileRead::Missing => {},
            ConfigFileRead::Invalid => {
                self.config_file = Some(ConfigFile::with_editor(default_editor));
            },
            ConfigFileRead::Parsed(f) => {
                self.config_file = Some(f);
            },
        }
    }

    /// The settings held, or the defaults with the given editor.
    pub fn file(&self, default_editor: &str) -> (f: ConfigFile)
        ensures
            match self.spec_config_file() {
                Some(held) => f.general.editor@ == held.general.editor@
                    && f.dev.packages@.map_values(|p: String| p@)
                        == held.dev.packages@.map_values(|p: String| p@),
                None => f.general.editor@ == default_editor@ && f.dev.packages@.len() == 0,
            },
    {
        match &self.config_file {
            Some(held) => held.copy(),
            None => ConfigFile::with_editor(default_editor),
        }
    }

    /// The data directory.
    pub fn dkdc_dir(&self) -> (r: &String)
        ensures
            r@ == self.spec_dkdc_dir(),
    {
        &self.dkdc_dir
    }

    /// The data lake directory inside the data directory.
    pub fn lake_dir(&self) -> (r: String)
        ensures
            r@ == joined(self.spec_dkdc_dir(), "dkdclake"@),
    {
        join_path(self.dkdc_dir.as_str(), "dkdclake")
    }

    /// The lake's metadata database.
    pub fn metadata_path(&self) -> (r: String)
        ensures
            r@ == joined(joined(self.spec_dkdc_dir(), "dkdclake"@), "metadata.db"@),
    {
        let lake = self.lake_dir();
        join_path(lake.as_str(), "metadata.db")
    }

    /// The lake's data directory.
    pub fn data_path(&self) -> (r: String)
        ensures
            r@ == joined(joined(self.spec_dkdc_dir(), "dkdclake"@), "data"@),
    {
        let lake = self.lake_dir();
        join_path(lake.as_str(), "data")
    }

    /// The Python virtual environment of the development REPL.
    pub fn venv_path(&self) -> (r: String)
        ensures
            r@ == joined(self.spec_dkdc_dir(), "venv"@),
    {
        join_path(self.dkdc_dir.as_str(), "venv")
    }

    /// The interpreter inside the virtual environment, on a Unix layout.
    pub fn python_path(&self) -> (r: String)
        ensures
            r@ == joined(joined(joined(self.spec_dkdc_dir(), "venv"@), "bin"@), "python"@),
    {
        let venv = self.venv_path();
        let bin = join_path(venv.as_str(), "bin");
        join_path(bin.as_str(), "python")
    }

    /// The settings file: under `$XDG_CONFIG_HOME` when set, else under
    /// `$HOME/.config`, else under the data directory.
    pub fn config_file_path(&self, xdg_config_home: Option<&str>, home: Option<&str>) -> (r: String)
        ensures
            r@ == joined(
                joined(
                    match xdg_config_home {
                        Some(x) => x@,
                        None => match home {
                            Some(h) => joined(h@, ".config"@),
                            None => self.spec_dkdc_dir(),
                        },
                    },
                    "dkdc"@,
                ),
                "config.toml"@,
            ),
    {
        let dir = match xdg_config_home {
            Some(x) => String::from_str(x),
            None => match home {
                Some(h) => join_path(h, ".config"),
                None => self.dkdc_dir.clone(),
            },
        };
        let d = join_path(dir.as_str(), "dkdc");
        join_path(d.as_str(), "config.toml")
    }
}

} // verus!
