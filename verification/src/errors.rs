//! Why a connection could not be made.

use vstd::prelude::*;
use vstd::string::*;

verus! {

/// Why a robot could not connect to another.
#[derive(Debug, PartialEq, Eq, Clone)]
pub enum RobotConnectionError {
    ColudNotConnectToRobot(String),
    NoRobotsAvailableError(),
}

impl RobotConnectionError {
    /// The error as a sentence.
    pub open spec fn spec_to_string(self) -> Seq<char> {
        match self {
            RobotConnectionError::ColudNotConnectToRobot(err) => "Could not connect to robot: "@
                + err@,
            RobotConnectionError::NoRobotsAvailableError() => "No robots available to connect"@,
        }
    }

    /// The error as a sentence.
    pub fn to_string(&self) -> (text: String)
        ensures
            text@ == self.spec_to_string(),
    {
        match self {
            RobotConnectionError::ColudNotConnectToRobot(err) => {
                let mut text = String::from_str("Could not connect to robot: ");
                text.append(err.as_str());
                text
            },
            RobotConnectionError::NoRobotsAvailableError() => String::from_str(
                "No robots available to connect",
            ),
        }
    }
}

} // verus!
