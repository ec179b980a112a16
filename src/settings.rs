use vstd::prelude::*;

verus! {

/// The value a setting takes, field by field: the command line's when the
/// option was given there, else the config file's when it holds one, else the
/// command line's default.
pub fn choose_setting<T>(given_on_command_line: bool, command_line: T, config_file: Option<T>) -> (r: T)
    ensures
        r == (if !given_on_command_line && config_file is Some {
            config_file->0
        } else {
            command_line
        }),
{
    if given_on_command_line {
        command_line
    } else {
        match config_file {
            Some(v) => v,
            None => command_line,
        }
    }
}

} // verus!
