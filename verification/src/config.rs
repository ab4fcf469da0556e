//! Layered run configuration: the same settings can arrive from the
//! environment, from a configuration file and from the command line, and are
//! merged with the command line strongest and the environment weakest.

use vstd::prelude::*;

use crate::sizes::{spec_dec_digits, spec_lower, spec_trim, trim_bytes, u64_to_dec};

verus! {

/// One run's settings; every field is optional until merging is done.
pub struct Config {
    pub output: Option<String>,
    pub config: Option<String>,
    pub format: Option<String>,
    pub authentication: Option<String>,
    pub protocol: Option<String>,
    pub dry: Option<bool>,
    pub max_size: Option<u64>,
    pub before: Option<String>,
    pub after: Option<String>,
    pub paths: Option<Vec<String>>,
    pub skip: Option<Vec<String>>,
    pub compress: Option<bool>,
}

impl Config {
    /// A configuration with nothing set.
    pub fn empty() -> (c: Config)
        ensures
            c.output is None,
            c.config is None,
            c.format is None,
            c.authentication is None,
            c.protocol is None,
            c.dry is None,
            c.max_size is None,
            c.before is None,
            c.after is None,
            c.paths is None,
            c.skip is None,
            c.compress is None,
    {
        Config {
            output: None,
            config: None,
            format: None,
            authentication: None,
            protocol: None,
            dry: None,
            max_size: None,
            before: None,
            after: None,
            paths: None,
            skip: None,
            compress: None,
        }
    }
}

impl core::default::Default for Config {
    /// The same configuration with nothing set.
    fn default() -> (c: Config)
        ensures
            c.output is None,
            c.config is None,
            c.format is None,
            c.authentication is None,
            c.protocol is None,
            c.dry is None,
            c.max_size is None,
            c.before is None,
            c.after is None,
            c.paths is None,
            c.skip is None,
            c.compress is None,
    {
        Config::empty()
    }
}

/// The command-line settings, as handed in by the outside argument parser.
pub struct Cli {
    /// Output path (can also come from config or environment).
    pub output: Option<String>,
    /// Configuration file path.
    pub config: Option<String>,
    /// Output format name.
    pub format: Option<String>,
    /// Authentication token.
    pub authentication: Option<String>,
    /// Upload protocol name.
    pub protocol: Option<String>,
    /// Dry run: list files and parameters, do no work.
    pub dry: bool,
    /// Size limit in bytes; 0 means unlimited.
    pub max_size: u64,
    /// Command to run before the backup.
    pub before: Option<String>,
    /// Command to run after the backup.
    pub after: Option<String>,
    /// Patterns to skip.
    pub skip: Vec<String>,
    /// Whether to compress entries.
    pub compress: bool,
    /// Print the merged settings instead of running.
    pub generate_yaml_config: bool,
    /// Files or directories to pack.
    pub paths: Vec<String>,
}

/// Three layers of one optional setting, strongest last.
pub open spec fn spec_pick<T>(env: Option<T>, file: Option<T>, cli: Option<T>) -> Option<T> {
    if cli is Some {
        cli
    } else if file is Some {
        file
    } else {
        env
    }
}

fn pick<T>(env: Option<T>, file: Option<T>, cli: Option<T>) -> (r: Option<T>)
    ensures
        r == spec_pick(env, file, cli),
{
    match cli {
        Some(c) => Some(c),
        None => match file {
            Some(f) => Some(f),
            None => env,
        },
    }
}

/// Lifts command-line settings into a configuration layer: flags become set
/// options, empty lists stay unset.
pub fn cli_to_config(cli: Cli) -> (c: Config)
    ensures
        c.output == cli.output,
        c.config == cli.config,
        c.format == cli.format,
        c.authentication == cli.authentication,
        c.protocol == cli.protocol,
        c.dry == Some(cli.dry),
        c.max_size == Some(cli.max_size),
        c.before == cli.before,
        c.after == cli.after,
        cli.paths@.len() == 0 ==> c.paths is None,
        cli.paths@.len() > 0 ==> c.paths == Some(cli.paths),
        cli.skip@.len() == 0 ==> c.skip is None,
        cli.skip@.len() > 0 ==> c.skip == Some(cli.skip),
        c.compress == Some(cli.compress),
{
    let paths = if cli.paths.len() == 0 {
        None
    } else {
        Some(cli.paths)
    };
    let skip = if cli.skip.len() == 0 {
        None
    } else {
        Some(cli.skip)
    };
    Config {
        output: cli.output,
        config: cli.config,
        format: cli.format,
        authentication: cli.authentication,
        protocol: cli.protocol,
        dry: Some(cli.dry),
        max_size: Some(cli.max_size),
        before: cli.before,
        after: cli.after,
        paths,
        skip,
        compress: Some(cli.compress),
    }
}

/// Merges the three layers: the command line wins over the file, the file
/// over the environment, field by field.
pub fn merge_configs(env: Config, file: Config, cli: Config) -> (r: Config)
    ensures
        r.output == spec_pick(env.output, file.output, cli.output),
        r.config == spec_pick(env.config, file.config, cli.config),
        r.format == spec_pick(env.format, file.format, cli.format),
        r.authentication == spec_pick(
            env.authentication,
            file.authentication,
            cli.authentication,
        ),
        r.protocol == spec_pick(env.protocol, file.protocol, cli.protocol),
        r.dry == spec_pick(env.dry, file.dry, cli.dry),
        r.max_size == spec_pick(env.max_size, file.max_size, cli.max_size),
        r.before == spec_pick(env.before, file.before, cli.before),
        r.after == spec_pick(env.after, file.after, cli.after),
        r.paths == spec_pick(env.paths, file.paths, cli.paths),
        r.skip == spec_pick(env.skip, file.skip, cli.skip),
        r.compress == spec_pick(env.compress, file.compress, cli.compress),
{
    Config {
        output: pick(env.output, file.output, cli.output),
        config: pick(env.config, file.config, cli.config),
        format: pick(env.format, file.format, cli.format),
        authentication: pick(env.authentication, file.authentication, cli.authentication),
        protocol: pick(env.protocol, file.protocol, cli.protocol),
        dry: pick(env.dry, file.dry, cli.dry),
        max_size: pick(env.max_size, file.max_size, cli.max_size),
        before: pick(env.before, file.before, cli.before),
        after: pick(env.after, file.after, cli.after),
        paths: pick(env.paths, file.paths, cli.paths),
        skip: pick(env.skip, file.skip, cli.skip),
        compress: pick(env.compress, file.compress, cli.compress),
    }
}

/// The configured size limit rendered in decimal, where one is set and
/// positive.
pub fn get_max_size_str(config: &Config) -> (r: Option<String>)
    ensures
        match config.max_size {
            Some(v) => if v > 0 {
                r matches Some(s) && s@ == spec_dec_digits(v as nat)
            } else {
                r is None
            },
            None => r is None,
        },
{
    match &config.max_size {
        Some(v) => if *v > 0 {
            Some(u64_to_dec(*v))
        } else {
            None
        },
        None => None,
    }
}

/// The truthy forms an environment flag may take: "true", "1", or "yes" in
/// any letter case.
pub open spec fn spec_bool_flag(v: Seq<u8>) -> bool {
    v == seq![116u8, 114u8, 117u8, 101u8] || v == seq![49u8] || spec_lower(v) == seq![
        121u8,
        101u8,
        115u8,
    ]
}

/// Reads an environment flag value: "true", "1", or "yes" ignoring letter
/// case mean set.
pub fn parse_bool_flag(v: &[u8]) -> (b: bool)
    ensures
        b == spec_bool_flag(v@),
{
    if v.len() == 1 {
        let r = v[0] == 49;
        proof {
            if v@[0] == 49 {
                assert(v@ =~= seq![49u8]);
            }
            assert(v@ != seq![116u8, 114u8, 117u8, 101u8]) by {
                assert(seq![116u8, 114u8, 117u8, 101u8].len() == 4);
            }
            assert(spec_lower(v@).len() == 1);
            assert(spec_lower(v@) != seq![121u8, 101u8, 115u8]) by {
                assert(seq![121u8, 101u8, 115u8].len() == 3);
            }
            if !r {
                assert(v@ != seq![49u8]);
            }
        }
        r
    } else if v.len() == 3 {
        let lower0 = crate::sizes::lower_byte(v[0]);
        let lower1 = crate::sizes::lower_byte(v[1]);
        let lower2 = crate::sizes::lower_byte(v[2]);
        let r = lower0 == 121 && lower1 == 101 && lower2 == 115;
        proof {
            assert(spec_lower(v@).len() == 3);
            if r {
                assert(spec_lower(v@) =~= seq![121u8, 101u8, 115u8]);
            } else {
                assert(spec_lower(v@) != seq![121u8, 101u8, 115u8]) by {
                    if spec_lower(v@) == seq![121u8, 101u8, 115u8] {
                        assert(spec_lower(v@)[0] == 121 && spec_lower(v@)[1] == 101 && spec_lower(
                            v@,
                        )[2] == 115);
                    }
                }
            }
            assert(v@ != seq![116u8, 114u8, 117u8, 101u8]) by {
                assert(seq![116u8, 114u8, 117u8, 101u8].len() == 4);
            }
            assert(v@ != seq![49u8]) by {
                assert(seq![49u8].len() == 1);
            }
        }
        r
    } else if v.len() == 4 {
        let r = v[0] == 116 && v[1] == 114 && v[2] == 117 && v[3] == 101;
        proof {
            if r {
                assert(v@ =~= seq![116u8, 114u8, 117u8, 101u8]);
            } else {
                assert(v@ != seq![116u8, 114u8, 117u8, 101u8]) by {
                    if v@ == seq![116u8, 114u8, 117u8, 101u8] {
                        assert(v@[0] == 116 && v@[1] == 114 && v@[2] == 117 && v@[3] == 101);
                    }
                }
            }
            assert(v@ != seq![49u8]) by {
                assert(seq![49u8].len() == 1);
            }
            assert(spec_lower(v@).len() == 4);
            assert(spec_lower(v@) != seq![121u8, 101u8, 115u8]) by {
                assert(seq![121u8, 101u8, 115u8].len() == 3);
            }
        }
        r
    } else {
        proof {
            assert(v@ != seq![116u8, 114u8, 117u8, 101u8]) by {
                assert(seq![116u8, 114u8, 117u8, 101u8].len() == 4);
            }
            assert(v@ != seq![49u8]) by {
                assert(seq![49u8].len() == 1);
            }
            assert(spec_lower(v@).len() == v@.len());
            assert(spec_lower(v@) != seq![121u8, 101u8, 115u8]) by {
                assert(seq![121u8, 101u8, 115u8].len() == 3);
            }
        }
        false
    }
}

/// Where the first of byte `b` stands in `s`, if anywhere.
pub open spec fn spec_first_at(s: Seq<u8>, b: u8) -> Option<int>
    decreases s.len(),
{
    if s.len() == 0 {
        None
    } else if s[0] == b {
        Some(0int)
    } else {
        match spec_first_at(s.subrange(1, s.len() as int), b) {
            Some(j) => Some(j + 1),
            None => None,
        }
    }
}

pub proof fn lemma_first_at_found(s: Seq<u8>, b: u8, k: int)
    requires
        0 <= k < s.len(),
        s[k] == b,
        forall|j: int| 0 <= j < k ==> s[j] != b,
    ensures
        spec_first_at(s, b) == Some(k),
    decreases k,
{
    if k > 0 {
        lemma_first_at_found(s.subrange(1, s.len() as int), b, k - 1);
    }
}

pub proof fn lemma_first_at_none(s: Seq<u8>, b: u8)
    requires
        forall|j: int| 0 <= j < s.len() ==> s[j] != b,
    ensures
        spec_first_at(s, b) is None,
    decreases s.len(),
{
    if s.len() > 0 {
        lemma_first_at_none(s.subrange(1, s.len() as int), b);
    }
}

/// The skip list an environment value denotes: split at commas, each piece
/// trimmed, empty pieces dropped.
pub open spec fn spec_split_skip(s: Seq<u8>) -> Seq<Seq<u8>>
    decreases s.len(),
{
    match spec_first_at(s, 44) {
        None => if spec_trim(s).len() > 0 {
            seq![spec_trim(s)]
        } else {
            Seq::empty()
        },
        Some(i) => if 0 <= i < s.len() {
            let head = spec_trim(s.take(i));
            let tail = spec_split_skip(s.subrange(i + 1, s.len() as int));
            if head.len() > 0 {
                seq![head] + tail
            } else {
                tail
            }
        } else {
            Seq::empty()
        },
    }
}

/// Splits a comma-separated skip list, trimming each entry and dropping
/// empty ones.
pub fn split_skip_list(s: &[u8]) -> (r: Vec<Vec<u8>>)
    ensures
        r@.map_values(|v: Vec<u8>| v@) == spec_split_skip(s@),
{
    let mut r: Vec<Vec<u8>> = Vec::new();
    let mut start: usize = 0;
    proof {
        assert(s@.subrange(0, s@.len() as int) =~= s@);
        assert(r@.map_values(|v: Vec<u8>| v@) + spec_split_skip(s@.subrange(0, s@.len() as int))
            =~= spec_split_skip(s@));
    }
    loop
        invariant
            start <= s@.len(),
            r@.map_values(|v: Vec<u8>| v@) + spec_split_skip(
                s@.subrange(start as int, s@.len() as int),
            ) == spec_split_skip(s@),
        decreases s@.len() - start,
    {
        let ghost rest = s@.subrange(start as int, s@.len() as int);
        // Find the next comma.
        let mut k: usize = start;
        while k < s.len() && s[k] != 44
            invariant
                start <= k <= s@.len(),
                forall|j: int| start <= j < k ==> s@[j] != 44,
            decreases s@.len() - k,
        {
            k = k + 1;
        }
        let piece = {
            let mut p: Vec<u8> = Vec::new();
            let mut q: usize = start;
            while q < k
                invariant
                    start <= q <= k <= s@.len(),
                    p@ == s@.subrange(start as int, q as int),
                decreases k - q,
            {
                p.push(s[q]);
                proof {
                    assert(s@.subrange(start as int, q as int).push(s@[q as int]) =~= s@.subrange(
                        start as int,
                        q + 1,
                    ));
                }
                q = q + 1;
            }
            trim_bytes(p.as_slice())
        };
        if k == s.len() {
            proof {
                assert(forall|j: int| 0 <= j < rest.len() ==> rest[j] != 44);
                lemma_first_at_none(rest, 44);
                assert(rest =~= s@.subrange(start as int, k as int));
            }
            if piece.len() > 0 {
                r.push(piece);
                proof {
                    assert(r@.map_values(|v: Vec<u8>| v@) =~= spec_split_skip(s@));
                }
            }
            return r;
        }
        proof {
            assert(rest[k - start] == 44);
            assert(forall|j: int| 0 <= j < k - start ==> rest[j] != 44);
            lemma_first_at_found(rest, 44, k - start);
            assert(rest.take(k - start) =~= s@.subrange(start as int, k as int));
            assert(rest.subrange(k - start + 1, rest.len() as int) =~= s@.subrange(
                k + 1,
                s@.len() as int,
            ));
        }
        if piece.len() > 0 {
            r.push(piece);
            proof {
                assert(r@.map_values(|v: Vec<u8>| v@) + spec_split_skip(
                    s@.subrange(k + 1, s@.len() as int),
                ) =~= spec_split_skip(s@));
            }
        }
        start = k + 1;
    }
}

} // verus!
